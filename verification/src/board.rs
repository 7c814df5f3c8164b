//! The board: one playfield, the piece in play on it, and the rules by which
//! the piece moves, drops and locks.

use crate::display::{
    lemma_cells_fit_joined, lemma_with_cells_joined, lemma_with_cells_keeps_canvas,
    lemma_with_cells_next, Cell,
};
use crate::game::{GameState, Key, State};
use crate::grid::{
    after_clear, cleared, compacted, empty_block, empty_row, empty_rows, full_rows, kept,
    lemma_empty_row_is_unique, lemma_full_rows_with_row_above, lemma_kept_rows_are_occupied,
    lemma_kept_with_row_above, lemma_no_full_row_counts_zero, lemma_nothing_to_clear, padding,
    row_is_empty, row_is_full, row_well_formed, rows_well_formed, BlockState, Row, Rows,
    GRID_HEIGHT, GRID_WIDTH,
};
use crate::tetromino::{
    all_well_formed, lemma_catalog_shapes, rotated, PieceKind, Shape, Tetromino, TetrominoGenertor,
    SHADOW_COLOR,
};
use std::time::{Duration, Instant};
use vstd::assert_by_contradiction;
use vstd::prelude::*;

verus! {

/// Columns of the board, its border included.
pub const BOARD_WIDTH: usize = 12;

/// Rows of the board, its border included.
pub const BOARD_HEIGHT: usize = 22;

/// The color of the border.
pub const BORDER_COLOR: u32 = 0xFF999999;

/// `std::time::Instant`, a point on the machine's monotonic clock. Nothing is
/// said of what it holds.
#[verifier::external_type_specification]
#[verifier::external_body]
pub struct ExInstant(Instant);

/// `Instant::now` reads the clock. Nothing is claimed of the reading.
pub assume_specification[ Instant::now ]() -> (now: Instant);

/// `Instant::elapsed` measures the time since the instant was taken. Nothing
/// is claimed of the measure.
pub assume_specification[ Instant::elapsed ](since: &Instant) -> (elapsed: Duration);

/// `Duration::as_millis` gives a duration in whole milliseconds. Nothing is
/// claimed of the number.
pub assume_specification[ Duration::as_millis ](duration: &Duration) -> (millis: u128);

/// The piece in play: its rotation cycle, current state first, and where its
/// origin lies on the screen grid.
pub struct ActivePiece {
    pub shapes: Seq<Shape>,
    pub x: int,
    pub y: int,
}

/// The mathematical value of a board.
pub struct BoardView {
    /// Where the top left corner of the border lies on the screen grid.
    pub x: int,
    pub y: int,
    /// The playfield inside the border, top row first.
    pub rows: Rows,
    pub piece: Option<ActivePiece>,
}

/// A board origin that leaves room in the coordinates for the border and for
/// the reach of a piece beyond it.
pub open spec fn origin_fits(x: u32, y: u32) -> bool {
    x + BOARD_WIDTH + 4 <= u32::MAX && y + BOARD_HEIGHT + 4 <= u32::MAX
}

impl ActivePiece {
    /// The current rotation state.
    pub open spec fn shape(self) -> Shape {
        self.shapes[0]
    }
}

impl BoardView {
    /// The playfield has its size, cells that are not set have color 0, and
    /// the piece in play, if any, is made of well-formed states and lies
    /// between the side walls, below the top border and with its origin above
    /// the floor.
    pub open spec fn well_formed(self) -> bool {
        &&& 0 <= self.x && 0 <= self.y
        &&& self.x + BOARD_WIDTH + 4 <= u32::MAX
        &&& self.y + BOARD_HEIGHT + 4 <= u32::MAX
        &&& self.rows.len() == GRID_HEIGHT
        &&& rows_well_formed(self.rows)
        &&& self.piece matches Some(p) ==> {
            &&& p.shapes.len() > 0
            &&& all_well_formed(p.shapes)
            &&& self.x + 1 <= p.x
            &&& p.x + p.shape().width <= self.x + BOARD_WIDTH - 1
            &&& self.y + 1 <= p.y <= self.y + GRID_HEIGHT
        }
    }

    /// The playfield row that the row `y` of the screen grid is.
    pub open spec fn row_of(self, y: int) -> int {
        y - self.y - 1
    }

    /// The playfield column that the column `x` of the screen grid is.
    pub open spec fn col_of(self, x: int) -> int {
        x - self.x - 1
    }

    /// A place at which the piece in play can be tested for a collision:
    /// between the side walls and below the top border.
    pub open spec fn can_probe(self, x: int, y: int) -> bool {
        self.piece matches Some(p) ==> {
            &&& self.x + 1 <= x
            &&& x + p.shape().width <= self.x + BOARD_WIDTH - 1
            &&& self.y + 1 <= y
            &&& y + p.shape().height <= u32::MAX
        }
    }

    /// With its origin in the row `y`, the piece in play would reach the
    /// bottom border or pass it.
    pub open spec fn hits_floor(self, y: int) -> bool {
        self.piece matches Some(p) && y + p.shape().height >= self.y + BOARD_HEIGHT
    }

    /// With its origin at (`x`, `y`), the piece in play would cover a cell of
    /// the playfield that is set.
    pub open spec fn hits_block(self, x: int, y: int) -> bool {
        self.piece matches Some(p) && exists|i: int|
            0 <= i < p.shape().vertices.len() && self.vertex_is_set(
                x,
                y,
                #[trigger] p.shape().vertices[i],
            )
    }

    /// The cell under a vertex of a piece with its origin at (`x`, `y`) is set.
    pub open spec fn vertex_is_set(self, x: int, y: int, vertex: (u32, u32)) -> bool {
        self.rows[self.row_of(y + vertex.1)][self.col_of(x + vertex.0)].set
    }

    /// Whether the piece in play, in its current state, would collide with
    /// its origin at (`x`, `y`): with the bottom border or with a cell that
    /// is set. Without a piece nothing collides.
    pub open spec fn collides_at(self, x: int, y: int) -> bool {
        self.hits_floor(y) || self.hits_block(x, y)
    }

    /// The piece in play lies above the bottom border, so that each of its
    /// cells is a cell of the playfield.
    pub open spec fn piece_in_grid(self) -> bool {
        self.piece matches Some(p) ==> p.y + p.shape().height <= self.y + BOARD_HEIGHT - 1
    }

    /// One of the first `n` vertices of the piece in play lies on the cell
    /// (`row`, `col`) of the playfield.
    pub open spec fn covers(self, n: int, row: int, col: int) -> bool {
        self.piece matches Some(p) && exists|i: int|
            0 <= i < n && self.vertex_lies_on(#[trigger] p.shape().vertices[i], row, col)
    }

    /// A vertex of the piece in play lies on the cell (`row`, `col`).
    pub open spec fn vertex_lies_on(self, vertex: (u32, u32), row: int, col: int) -> bool {
        self.piece matches Some(p) && self.row_of(p.y + vertex.1) == row && self.col_of(
            p.x + vertex.0,
        ) == col
    }

    /// The playfield with the cells under the first `n` vertices of the piece
    /// in play set and given its color.
    pub open spec fn locked_rows_upto(self, n: int) -> Rows {
        Seq::new(
            GRID_HEIGHT as nat,
            |r: int|
                Seq::new(
                    GRID_WIDTH as nat,
                    |c: int|
                        if self.covers(n, r, c) {
                            BlockState { set: true, color: self.piece->0.shape().color }
                        } else {
                            self.rows[r][c]
                        },
                ),
        )
    }

    /// The playfield with the cells under the piece in play set and given its
    /// color.
    pub open spec fn locked_rows(self) -> Rows {
        match self.piece {
            Some(p) => self.locked_rows_upto(p.shape().vertices.len() as int),
            None => self.rows,
        }
    }

    /// The board with the piece in play moved to (`x`, `y`).
    pub open spec fn moved(self, x: int, y: int) -> BoardView {
        match self.piece {
            Some(p) => BoardView { piece: Some(ActivePiece { x, y, ..p }), ..self },
            None => self,
        }
    }

    /// The top and the bottom border, as they are drawn: column by column,
    /// the top cell and then the bottom one.
    pub open spec fn border_rows(self) -> Seq<Cell> {
        Seq::new(
            2 * BOARD_WIDTH as nat,
            |k: int|
                Cell {
                    color: BORDER_COLOR,
                    x: self.x + k / 2,
                    y: if k % 2 == 0 {
                        self.y
                    } else {
                        self.y + BOARD_HEIGHT - 1
                    },
                },
        )
    }

    /// The left and the right border below the top row, as they are drawn:
    /// row by row, the left cell and then the right one.
    pub open spec fn border_columns(self) -> Seq<Cell> {
        Seq::new(
            2 * (BOARD_HEIGHT - 1) as nat,
            |k: int|
                Cell {
                    color: BORDER_COLOR,
                    x: if k % 2 == 0 {
                        self.x
                    } else {
                        self.x + BOARD_WIDTH - 1
                    },
                    y: self.y + 1 + k / 2,
                },
        )
    }

    /// The cells of the playfield, row by row, each in the color it holds.
    pub open spec fn grid_cells(self) -> Seq<Cell> {
        Seq::new(
            (GRID_HEIGHT * GRID_WIDTH) as nat,
            |k: int|
                Cell {
                    color: self.rows[k / 10][k % 10].color,
                    x: self.x + 1 + k % 10,
                    y: self.y + 1 + k / 10,
                },
        )
    }

    /// The cells of the shadow of the piece in play: the piece where it
    /// would land, unless it lies there already.
    pub open spec fn shadow_cells(self) -> Seq<Cell> {
        match self.piece {
            Some(p) => if self.landing_y(p.y) != p.y {
                p.shape().cells_at(SHADOW_COLOR, p.x, self.landing_y(p.y))
            } else {
                Seq::empty()
            },
            None => Seq::empty(),
        }
    }

    /// The cells of the piece in play, in its color.
    pub open spec fn piece_cells(self) -> Seq<Cell> {
        match self.piece {
            Some(p) => p.shape().cells_at(p.shape().color, p.x, p.y),
            None => Seq::empty(),
        }
    }

    /// All that is drawn of a board, in the order of drawing: the border,
    /// the playfield, the piece in play and its shadow.
    pub open spec fn render_cells(self) -> Seq<Cell> {
        self.border_rows() + self.border_columns() + self.grid_cells() + self.piece_cells()
            + self.shadow_cells()
    }

    /// The column in which a piece of the given width is centered.
    pub open spec fn spawn_x(self, width: int) -> int {
        self.x + BOARD_WIDTH as int / 2 - (width + 1) / 2
    }

    /// The board with a new piece in play, in place of any other: centered
    /// over its width, in the top row of the playfield.
    pub open spec fn with_new_piece(self, shapes: Seq<Shape>) -> BoardView {
        let x = self.spawn_x(shapes[0].width as int);
        BoardView { piece: Some(ActivePiece { shapes, x, y: self.y + 1 }), ..self }
    }

    /// The board after one key: Left and Right move the piece by a column
    /// where it stays between the walls and does not collide; Up rotates it
    /// and, where it would reach into the right wall, pulls it left just far
    /// enough to fit, whatever lies there; any other key leaves the board as
    /// it is.
    pub open spec fn after_key(self, key: Key) -> BoardView {
        match self.piece {
            None => self,
            Some(p) => match key {
                Key::Left => if p.x > self.x + 1 && !self.collides_at(p.x - 1, p.y) {
                    self.moved(p.x - 1, p.y)
                } else {
                    self
                },
                Key::Right => if p.x + p.shape().width < self.x + BOARD_WIDTH - 1
                    && !self.collides_at(p.x + 1, p.y) {
                    self.moved(p.x + 1, p.y)
                } else {
                    self
                },
                Key::Up => {
                    let shapes = rotated(p.shapes);
                    let width = shapes[0].width;
                    let x = if p.x + width > self.x + BOARD_WIDTH - 1 {
                        self.x + BOARD_WIDTH - 1 - width
                    } else {
                        p.x
                    };
                    BoardView { piece: Some(ActivePiece { shapes, x, y: p.y }), ..self }
                },
                _ => self,
            },
        }
    }

    /// The board after the keys, each in its turn.
    pub open spec fn after_keys(self, keys: Seq<Key>) -> BoardView
        decreases keys.len(),
    {
        if keys.len() == 0 {
            self
        } else {
            self.after_keys(keys.drop_last()).after_key(keys.last())
        }
    }

    /// The row in which the origin of the piece in play comes to rest when it
    /// falls from the row `y` until the next row would collide.
    pub open spec fn landing_y(self, y: int) -> int
        decreases self.y + BOARD_HEIGHT - y,
    {
        match self.piece {
            None => y,
            Some(p) => if self.collides_at(p.x, y + 1) {
                y
            } else {
                self.landing_y(y + 1)
            },
        }
    }

    /// Whether a descent is attempted: there is a piece, and either it is to
    /// fall as far as it can or its time to fall has come.
    pub open spec fn attempts_descent(self, state: State, due: bool) -> bool {
        self.piece is Some && (state == State::DropBlock || due)
    }

    /// Whether the descent locks the piece: it is attempted one row at a
    /// time, and the next row collides.
    pub open spec fn locks(self, state: State, due: bool) -> bool {
        &&& self.attempts_descent(state, due)
        &&& state != State::DropBlock
        &&& self.collides_at(self.piece->0.x, self.piece->0.y + 1)
    }

    /// The board after the descent.
    pub open spec fn after_descent(self, state: State, due: bool) -> BoardView {
        if !self.attempts_descent(state, due) {
            self
        } else if state == State::DropBlock {
            self.moved(self.piece->0.x, self.landing_y(self.piece->0.y))
        } else if !self.collides_at(self.piece->0.x, self.piece->0.y + 1) {
            self.moved(self.piece->0.x, self.piece->0.y + 1)
        } else {
            BoardView { rows: after_clear(self.locked_rows()), piece: None, ..self }
        }
    }

    /// The phase after the descent.
    pub open spec fn state_after_descent(self, state: State, due: bool) -> State {
        if !self.attempts_descent(state, due) {
            state
        } else if state == State::DropBlock {
            State::Playing
        } else if !self.collides_at(self.piece->0.x, self.piece->0.y + 1) {
            state
        } else if full_rows(self.locked_rows()) > 0 {
            State::UpdateScore(full_rows(self.locked_rows()) as i32)
        } else {
            State::NewTetrominoNeeded
        }
    }
}

/// The phase after the keys: Down asks for the piece to fall as far as it can.
pub open spec fn state_after_keys(state: State, keys: Seq<Key>) -> State {
    if keys.contains(Key::Down) {
        State::DropBlock
    } else {
        state
    }
}

/// The board: the playfield, the catalog it draws pieces from, the piece in
/// play and the time of the last descent.
pub struct Board {
    x: u32,
    y: u32,
    // The border carries no state: only the cells inside it are kept.
    state: [[BlockState; 10]; 20],
    tetromino_generator: TetrominoGenertor,
    current_tetromino: Option<Tetromino>,
    current_tetromino_x: u32,
    current_tetromino_y: u32,
    last_tick: Instant,
}

impl View for Board {
    type V = BoardView;

    closed spec fn view(&self) -> BoardView {
        BoardView {
            x: self.x as int,
            y: self.y as int,
            rows: Seq::new(GRID_HEIGHT as nat, |r: int| self.state[r]@),
            piece: match self.current_tetromino {
                Some(tetromino) => Some(
                    ActivePiece {
                        shapes: tetromino@,
                        x: self.current_tetromino_x as int,
                        y: self.current_tetromino_y as int,
                    },
                ),
                None => None,
            },
        }
    }
}

impl Board {
    /// The invariant of a board, which every operation keeps.
    pub open spec fn wf(&self) -> bool {
        self@.well_formed()
    }

    /// An empty board whose border has its top left corner at (`x`, `y`) on
    /// the screen grid, with no piece in play.
    pub fn new(x: u32, y: u32) -> (board: Self)
        requires
            origin_fits(x, y),
        ensures
            board.wf(),
            board@ == (BoardView { x: x as int, y: y as int, rows: empty_rows(), piece: None }),
    {
        let tetromino_generator = TetrominoGenertor::new();
        let state = [[BlockState { set: false, color: 0 }; 10]; 20];
        let board = Board {
            x,
            y,
            state,
            tetromino_generator,
            current_tetromino: None,
            current_tetromino_x: 0,
            current_tetromino_y: 0,
            last_tick: Instant::now(),
        };
        assert forall|r: int| 0 <= r < 20 implies #[trigger] board@.rows[r] == empty_row() by {
            assert(board@.rows[r] =~= empty_row());
        }
        assert(board@.rows =~= empty_rows());
        board
    }

    /// Whether the cell at (`row`, `col`) of the playfield is set.
    pub fn is_occupied(&self, row: usize, col: usize) -> (set: bool)
        requires
            row < GRID_HEIGHT,
            col < GRID_WIDTH,
        ensures
            set == self@.rows[row as int][col as int].set,
    {
        self.state[row][col].set
    }

    /// The cell at (`row`, `col`) of the playfield.
    pub fn block(&self, row: usize, col: usize) -> (cell: BlockState)
        requires
            row < GRID_HEIGHT,
            col < GRID_WIDTH,
        ensures
            cell == self@.rows[row as int][col as int],
    {
        self.state[row][col]
    }

    /// Whether no cell of the row is set.
    pub fn is_line_empty(&self, row: usize) -> (empty: bool)
        requires
            row < GRID_HEIGHT,
        ensures
            empty == row_is_empty(self@.rows[row as int]),
    {
        let mut col: usize = 0;
        while col < GRID_WIDTH
            invariant
                row < GRID_HEIGHT,
                col <= GRID_WIDTH,
                forall|c: int| 0 <= c < col ==> !(#[trigger] self@.rows[row as int][c]).set,
            decreases GRID_WIDTH - col,
        {
            if self.state[row][col].set {
                return false;
            }
            col += 1;
        }
        true
    }

    /// Whether every cell of the row is set.
    pub fn is_line_full(&self, row: usize) -> (full: bool)
        requires
            row < GRID_HEIGHT,
        ensures
            full == row_is_full(self@.rows[row as int]),
    {
        let mut col: usize = 0;
        while col < GRID_WIDTH
            invariant
                row < GRID_HEIGHT,
                col <= GRID_WIDTH,
                forall|c: int| 0 <= c < col ==> (#[trigger] self@.rows[row as int][c]).set,
            decreases GRID_WIDTH - col,
        {
            if !self.state[row][col].set {
                return false;
            }
            col += 1;
        }
        true
    }

    /// Empties the row.
    pub fn reset_line(&mut self, row: usize)
        requires
            row < GRID_HEIGHT,
        ensures
            final(self)@ == (BoardView {
                rows: old(self)@.rows.update(row as int, empty_row()),
                ..old(self)@
            }),
            old(self).wf() ==> final(self).wf(),
    {
        let mut col: usize = 0;
        while col < GRID_WIDTH
            invariant
                row < GRID_HEIGHT,
                col <= GRID_WIDTH,
                self@.x == old(self)@.x,
                self@.y == old(self)@.y,
                self@.piece == old(self)@.piece,
                forall|r: int|
                    0 <= r < GRID_HEIGHT && r != row ==> self.state[r] == old(self).state[r],
                forall|c: int| 0 <= c < col ==> self.state[row as int][c] == empty_block(),
            decreases GRID_WIDTH - col,
        {
            self.state[row][col].set = false;
            self.state[row][col].color = 0;
            col += 1;
        }
        assert(self@.rows[row as int] =~= empty_row());
        assert(self@.rows =~= old(self)@.rows.update(row as int, empty_row()));
    }

    /// Copies the row `src` over the row `dst`.
    pub fn copy_line(&mut self, src: usize, dst: usize)
        requires
            src < GRID_HEIGHT,
            dst < GRID_HEIGHT,
        ensures
            final(self)@ == (BoardView {
                rows: old(self)@.rows.update(dst as int, old(self)@.rows[src as int]),
                ..old(self)@
            }),
            old(self).wf() ==> final(self).wf(),
    {
        let mut col: usize = 0;
        while col < GRID_WIDTH
            invariant
                src < GRID_HEIGHT,
                dst < GRID_HEIGHT,
                col <= GRID_WIDTH,
                self@.x == old(self)@.x,
                self@.y == old(self)@.y,
                self@.piece == old(self)@.piece,
                forall|r: int|
                    0 <= r < GRID_HEIGHT && r != dst ==> self.state[r] == old(self).state[r],
                forall|c: int|
                    0 <= c < col ==> self.state[dst as int][c] == old(self).state[src as int][c],
                forall|c: int|
                    col <= c < GRID_WIDTH ==> self.state[dst as int][c] == old(
                        self,
                    ).state[dst as int][c],
            decreases GRID_WIDTH - col,
        {
            self.state[dst][col] = self.state[src][col];
            col += 1;
        }
        assert(self@.rows[dst as int] =~= old(self)@.rows[src as int]);
        assert(self@.rows =~= old(self)@.rows.update(dst as int, old(self)@.rows[src as int]));
    }

    /// Lets every row that is not empty fall past the empty rows below it, so
    /// that the rows that hold cells lie at the bottom in their order.
    pub fn drop_lines(&mut self)
        requires
            old(self).wf(),
        ensures
            final(self).wf(),
            final(self)@ == (BoardView { rows: compacted(old(self)@.rows), ..old(self)@ }),
    {
        let ghost before = self@.rows;
        let mut row: usize = GRID_HEIGHT - 1;
        proof {
            let last = before[GRID_HEIGHT - 1];
            let none = Seq::<Row>::empty();
            lemma_kept_with_row_above(last, none);
            assert(seq![last] + none =~= before.subrange(row as int, GRID_HEIGHT as int));
            assert(kept(none) =~= none) by {
                reveal(Seq::filter);
            }
            if row_is_empty(last) {
                lemma_empty_row_is_unique(last);
            }
            assert(self@.rows.subrange(row as int, GRID_HEIGHT as int) =~= compacted(
                before.subrange(row as int, GRID_HEIGHT as int),
            ));
        }
        while row > 0
            invariant
                row < GRID_HEIGHT,
                before == old(self)@.rows,
                before.len() == GRID_HEIGHT,
                rows_well_formed(before),
                self@.x == old(self)@.x,
                self@.y == old(self)@.y,
                self@.piece == old(self)@.piece,
                forall|r: int| 0 <= r < row ==> #[trigger] self@.rows[r] == before[r],
                self@.rows.subrange(row as int, GRID_HEIGHT as int) == compacted(
                    before.subrange(row as int, GRID_HEIGHT as int),
                ),
            decreases row,
        {
            row -= 1;
            let ghost top = before[row as int];
            let ghost below = before.subrange(row + 1, GRID_HEIGHT as int);
            let ghost settled = self@.rows.subrange(row + 1, GRID_HEIGHT as int);
            let ghost gap = below.len() - kept(below).len();
            let ghost start = self@.rows;
            proof {
                assert(settled == padding(gap) + kept(below));
                assert(self@.rows[row as int] == top);
                assert forall|j: int| row < j < GRID_HEIGHT implies #[trigger] start[j] == (padding(
                    gap,
                ) + kept(below))[j - row - 1] by {
                    assert(start[j] == settled[j - row - 1]);
                }
                if gap < below.len() {
                    lemma_kept_rows_are_occupied(below, 0);
                }
            }
            let mut dst_row: usize = row;
            let mut next_row: usize = row + 1;
            while next_row != GRID_HEIGHT && self.is_line_empty(next_row)
                invariant
                    row < next_row <= GRID_HEIGHT,
                    dst_row + 1 == next_row,
                    next_row <= row + 1 + gap,
                    0 <= gap <= below.len(),
                    gap == below.len() - kept(below).len(),
                    below.len() == GRID_HEIGHT - row - 1,
                    self@.rows == start,
                    start.len() == GRID_HEIGHT,
                    forall|j: int|
                        row < j < GRID_HEIGHT ==> #[trigger] start[j] == (padding(gap) + kept(
                            below,
                        ))[j - row - 1],
                    gap < below.len() ==> !row_is_empty(kept(below)[0]),
                ensures
                    next_row == row + 1 + gap,
                    dst_row + 1 == next_row,
                    self@.rows == start,
                decreases GRID_HEIGHT - next_row,
            {
                proof {
                    if next_row == row + 1 + gap {
                        assert(start[next_row as int] == kept(below)[0]);
                    }
                }
                dst_row = next_row;
                next_row += 1;
            }
            if row != dst_row {
                self.copy_line(row, dst_row);
                self.reset_line(row);
            }
            proof {
                let whole = before.subrange(row as int, GRID_HEIGHT as int);
                assert(seq![top] + below =~= whole);
                lemma_kept_with_row_above(top, below);
                if row_is_empty(top) {
                    lemma_empty_row_is_unique(top);
                }
                let now = self@.rows.subrange(row as int, GRID_HEIGHT as int);
                assert forall|k: int| 0 <= k < now.len() implies now[k] == compacted(whole)[k] by {
                    if k > 0 {
                        assert(start[k + row] == (padding(gap) + kept(below))[k - 1]);
                    }
                }
                assert(now =~= compacted(whole));
            }
        }
        assert(self@.rows =~= self@.rows.subrange(0, GRID_HEIGHT as int));
        assert(before =~= before.subrange(0, GRID_HEIGHT as int));
        proof {
            lemma_compacted_is_well_formed(before);
        }
    }

    /// Empties every full row and, where there was one, compacts the rows
    /// that remain. Returns how many rows were full.
    pub fn remove_full_line(&mut self) -> (line_reset_count: i32)
        requires
            old(self).wf(),
        ensures
            final(self).wf(),
            line_reset_count == full_rows(old(self)@.rows),
            final(self)@ == (BoardView { rows: after_clear(old(self)@.rows), ..old(self)@ }),
    {
        let ghost before = self@.rows;
        let mut line_reset_count: i32 = 0;
        let mut row: usize = GRID_HEIGHT;
        proof {
            assert(full_rows(before.subrange(GRID_HEIGHT as int, GRID_HEIGHT as int)) == 0) by {
                reveal(Seq::filter);
            }
        }
        while row > 0
            invariant
                row <= GRID_HEIGHT,
                before == old(self)@.rows,
                before.len() == GRID_HEIGHT,
                rows_well_formed(before),
                self@.x == old(self)@.x,
                self@.y == old(self)@.y,
                self@.piece == old(self)@.piece,
                forall|r: int| 0 <= r < row ==> #[trigger] self@.rows[r] == before[r],
                forall|r: int|
                    row <= r < GRID_HEIGHT ==> #[trigger] self@.rows[r] == cleared(before)[r],
                line_reset_count == full_rows(before.subrange(row as int, GRID_HEIGHT as int)),
                line_reset_count <= GRID_HEIGHT - row,
            decreases row,
        {
            row -= 1;
            proof {
                let below = before.subrange(row + 1, GRID_HEIGHT as int);
                lemma_full_rows_with_row_above(before[row as int], below);
                assert(seq![before[row as int]] + below =~= before.subrange(
                    row as int,
                    GRID_HEIGHT as int,
                ));
            }
            if self.is_line_full(row) {
                self.reset_line(row);
                line_reset_count += 1;
            }
        }
        assert(self@.rows =~= cleared(before));
        assert(before =~= before.subrange(0, GRID_HEIGHT as int));
        if line_reset_count > 0 {
            self.drop_lines();
        }
        proof {
            if full_rows(before) > 0 {
                lemma_compacted_is_well_formed(cleared(before));
            } else {
                lemma_nothing_to_clear(before);
            }
        }
        line_reset_count
    }

    /// Whether the piece in play, in its current state, would collide with
    /// its origin at (`x`, `y`) of the screen grid: whether it would reach
    /// the bottom border or cover a cell that is set. The side walls are not
    /// its concern.
    pub fn detect_collision(&self, x: u32, y: u32) -> (hit: bool)
        requires
            self.wf(),
            self@.can_probe(x as int, y as int),
        ensures
            hit == self@.collides_at(x as int, y as int),
    {
        let Some(tetromino) = &self.current_tetromino else {
            return false;
        };
        let Some(representation) = tetromino.current_representation() else {
            return false;
        };
        let ghost shape = self@.piece->0.shape();
        assert(representation@ == shape);
        assert(shape.well_formed());
        if y + representation.height >= self.y + BOARD_HEIGHT as u32 {
            return true;
        }
        let n: usize = representation.vertices.len();
        let mut i: usize = 0;
        while i < n
            invariant
                i <= n,
                n == shape.vertices.len(),
                shape == self@.piece->0.shape(),
                representation@ == shape,
                shape.well_formed(),
                self.wf(),
                self@.piece is Some,
                self@.can_probe(x as int, y as int),
                y + shape.height < self.y + BOARD_HEIGHT,
                self.y == self@.y,
                self.x == self@.x,
                forall|j: int|
                    0 <= j < i ==> !self@.vertex_is_set(
                        x as int,
                        y as int,
                        #[trigger] shape.vertices[j],
                    ),
            decreases n - i,
        {
            let (vertex_x, vertex_y) = representation.vertices[i];
            assert(shape.vertices[i as int] == (vertex_x, vertex_y));
            let row: u32 = (y + vertex_y) - self.y - 1;
            let col: u32 = (x + vertex_x) - self.x - 1;
            if self.state[row as usize][col as usize].set {
                return true;
            }
            i += 1;
        }
        false
    }

    /// Commits the piece in play to the playfield: each cell under it is set
    /// and given its color.
    pub fn settle_tetromino(&mut self)
        requires
            old(self).wf(),
            old(self)@.piece_in_grid(),
        ensures
            final(self).wf(),
            final(self)@ == (BoardView { rows: old(self)@.locked_rows(), ..old(self)@ }),
    {
        let ghost before = self@;
        let Some(tetromino) = &self.current_tetromino else {
            return ;
        };
        let Some(representation) = tetromino.current_representation() else {
            return ;
        };
        let ghost shape = before.piece->0.shape();
        assert(representation@ == shape);
        assert(shape.well_formed());
        let n: usize = representation.vertices.len();
        assert(self@.rows =~= before.locked_rows_upto(0)) by {
            assert forall|r: int| 0 <= r < GRID_HEIGHT implies #[trigger] self@.rows[r]
                =~= before.locked_rows_upto(0)[r] by {}
        }
        let mut i: usize = 0;
        while i < n
            invariant
                i <= n,
                n == shape.vertices.len(),
                representation@ == shape,
                shape.well_formed(),
                before.well_formed(),
                before.piece_in_grid(),
                before.piece is Some,
                shape == before.piece->0.shape(),
                self.x == before.x,
                self.y == before.y,
                self.current_tetromino_x == before.piece->0.x,
                self.current_tetromino_y == before.piece->0.y,
                self@ == (BoardView { rows: before.locked_rows_upto(i as int), ..before }),
            decreases n - i,
        {
            let (vertex_x, vertex_y) = representation.vertices[i];
            assert(shape.vertices[i as int] == (vertex_x, vertex_y));
            let row: u32 = (self.current_tetromino_y + vertex_y) - self.y - 1;
            let col: u32 = (self.current_tetromino_x + vertex_x) - self.x - 1;
            let ghost earlier = self@.rows;
            self.state[row as usize][col as usize].set = true;
            self.state[row as usize][col as usize].color = representation.color;
            proof {
                let later = before.locked_rows_upto(i + 1);
                assert forall|r: int, c: int|
                    0 <= r < GRID_HEIGHT && 0 <= c < GRID_WIDTH implies #[trigger] self@.rows[r][c]
                    == later[r][c] by {
                    assert(earlier[r][c] == before.locked_rows_upto(i as int)[r][c]);
                    if r == row && c == col {
                        assert(before.vertex_lies_on(shape.vertices[i as int], r, c));
                    } else if before.covers(i + 1, r, c) {
                        let j = choose|j: int|
                            0 <= j < i + 1 && before.vertex_lies_on(
                                #[trigger] shape.vertices[j],
                                r,
                                c,
                            );
                        assert(j < i);
                    }
                }
                assert forall|r: int| 0 <= r < GRID_HEIGHT implies #[trigger] self@.rows[r]
                    =~= later[r] by {}
                assert(self@.rows =~= later);
            }
            i += 1;
        }
    }

    /// Applies the keys that are down, each in its turn: Left and Right move
    /// the piece, Up rotates it, Down asks for it to fall as far as it can.
    pub fn process_input(&mut self, gs: &mut GameState, down_keys: &Vec<Key>)
        requires
            old(self).wf(),
        ensures
            final(self).wf(),
            final(self)@ == old(self)@.after_keys(down_keys@),
            final(gs).state == state_after_keys(old(gs).state, down_keys@),
            final(gs).display == old(gs).display,
            final(gs).next_tetromino == old(gs).next_tetromino,
    {
        let n: usize = down_keys.len();
        let mut i: usize = 0;
        assert(down_keys@.subrange(0, 0) =~= Seq::<Key>::empty());
        while i < n
            invariant
                i <= n,
                n == down_keys@.len(),
                self.wf(),
                self@ == old(self)@.after_keys(down_keys@.subrange(0, i as int)),
                gs.state == state_after_keys(old(gs).state, down_keys@.subrange(0, i as int)),
                gs.display == old(gs).display,
                gs.next_tetromino == old(gs).next_tetromino,
            decreases n - i,
        {
            let key: Key = down_keys[i];
            let ghost earlier = self@;
            proof {
                let done = down_keys@.subrange(0, i as int);
                let next = down_keys@.subrange(0, i + 1);
                assert(next.drop_last() =~= done);
                assert(next.last() == key);
                assert(next.contains(Key::Down) <==> done.contains(Key::Down) || key == Key::Down)
                    by {
                    if done.contains(Key::Down) {
                        let j = choose|j: int| 0 <= j < done.len() && done[j] == Key::Down;
                        assert(next[j] == Key::Down);
                    }
                    if key == Key::Down {
                        assert(next[i as int] == Key::Down);
                    }
                    if next.contains(Key::Down) {
                        let j = choose|j: int| 0 <= j < next.len() && next[j] == Key::Down;
                        if j < i {
                            assert(done[j] == Key::Down);
                        }
                    }
                }
            }
            match key {
                Key::Left => {
                    if self.current_tetromino_x > self.x + 1 {
                        let next_x_position: u32 = self.current_tetromino_x - 1;
                        if !self.detect_collision(next_x_position, self.current_tetromino_y) {
                            self.current_tetromino_x -= 1;
                        }
                    }
                },
                Key::Right => {
                    if let Some(tetromino) = &self.current_tetromino {
                        if let Some(representation) = tetromino.current_representation() {
                            if self.current_tetromino_x + representation.width < self.x
                                + BOARD_WIDTH as u32 - 1 {
                                let next_x_position: u32 = self.current_tetromino_x + 1;
                                if !self.detect_collision(
                                    next_x_position,
                                    self.current_tetromino_y,
                                ) {
                                    self.current_tetromino_x += 1;
                                }
                            }
                        }
                    }
                },
                Key::Up => {
                    if let Some(tetromino) = &mut self.current_tetromino {
                        tetromino.rotate();
                        if let Some(representation) = tetromino.current_representation() {
                            let width: u32 = representation.width;
                            proof {
                                lemma_rotated_is_well_formed(earlier.piece->0.shapes);
                            }
                            if self.current_tetromino_x + width > self.x + BOARD_WIDTH as u32 - 1 {
                                self.current_tetromino_x = self.x + BOARD_WIDTH as u32 - 1 - width;
                            }
                        }
                    }
                },
                Key::Down => {
                    gs.state = State::DropBlock;
                },
                _ => {},
            }
            assert(self@ == earlier.after_key(key));
            i += 1;
        }
        assert(down_keys@.subrange(0, n as int) =~= down_keys@);
    }

    /// The descent of the piece in play, given the milliseconds since the
    /// last one. Where the piece is to fall as far as it can, it does, and
    /// play goes on. Otherwise, once 300 ms have passed, the piece moves down
    /// a row, or, where that row collides, is locked: its cells are
    /// committed, no piece is in play any more, full rows are cleared, and
    /// the phase asks for the score to be updated or for the next piece.
    /// Returns whether a descent was attempted.
    pub fn drop_tetromino_after(&mut self, gs: &mut GameState, elapsed_millis: u128) -> (attempted:
        bool)
        requires
            old(self).wf(),
            old(self)@.locks(old(gs).state, elapsed_millis >= 300) ==> old(self)@.piece_in_grid(),
        ensures
            final(self).wf(),
            attempted == old(self)@.attempts_descent(old(gs).state, elapsed_millis >= 300),
            final(self)@ == old(self)@.after_descent(old(gs).state, elapsed_millis >= 300),
            final(gs).state == old(self)@.state_after_descent(
                old(gs).state,
                elapsed_millis >= 300,
            ),
            final(gs).display == old(gs).display,
            final(gs).next_tetromino == old(gs).next_tetromino,
    {
        if gs.state != State::DropBlock && elapsed_millis < 300 {
            return false;
        }
        if self.current_tetromino.is_none() {
            return false;
        }
        let ghost before = self@;
        if gs.state == State::DropBlock {
            while !self.detect_collision(self.current_tetromino_x, self.current_tetromino_y + 1)
                invariant
                    self.wf(),
                    before.piece is Some,
                    self@ == before.moved(before.piece->0.x, self.current_tetromino_y as int),
                    before.landing_y(before.piece->0.y) == before.landing_y(
                        self.current_tetromino_y as int,
                    ),
                decreases self.y + BOARD_HEIGHT - self.current_tetromino_y,
            {
                proof {
                    lemma_collision_ignores_row(before, self@);
                }
                self.current_tetromino_y += 1;
            }
            proof {
                lemma_collision_ignores_row(before, self@);
            }
            gs.state = State::Playing;
            return true;
        }
        if !self.detect_collision(self.current_tetromino_x, self.current_tetromino_y + 1) {
            self.current_tetromino_y += 1;
            return true;
        }
        self.settle_tetromino();
        self.current_tetromino = None;
        let line_erased: i32 = self.remove_full_line();
        if line_erased > 0 {
            gs.state = State::UpdateScore(line_erased);
        } else {
            gs.state = State::NewTetrominoNeeded;
        }
        true
    }

    /// The descent of the piece in play by the clock: as
    /// `drop_tetromino_after` with the time that has passed since the last
    /// descent was attempted, which starts anew where one is attempted now.
    pub fn drop_tetromino(&mut self, gs: &mut GameState)
        requires
            old(self).wf(),
            old(self)@.locks(old(gs).state, true) ==> old(self)@.piece_in_grid(),
        ensures
            final(self).wf(),
            exists|due: bool|
                {
                    &&& final(self)@ == #[trigger] old(self)@.after_descent(old(gs).state, due)
                    &&& final(gs).state == old(self)@.state_after_descent(old(gs).state, due)
                },
            final(gs).display == old(gs).display,
            final(gs).next_tetromino == old(gs).next_tetromino,
    {
        let elapsed_millis: u128 = self.last_tick.elapsed().as_millis();
        let attempted: bool = self.drop_tetromino_after(gs, elapsed_millis);
        if attempted {
            self.last_tick = Instant::now();
        }
        assert(self@ == old(self)@.after_descent(old(gs).state, elapsed_millis >= 300));
    }

    /// Puts the piece in play, in place of any other: centered over its
    /// width, in the top row of the playfield.
    pub fn place_tetromino(&mut self, tetromino: Tetromino)
        requires
            old(self).wf(),
            tetromino.well_formed(),
        ensures
            final(self).wf(),
            final(self)@ == old(self)@.with_new_piece(tetromino@),
    {
        proof {
            assert(tetromino@[0].well_formed());
        }
        if let Some(representation) = tetromino.current_representation() {
            self.current_tetromino_x = self.x + (BOARD_WIDTH as u32 / 2 - (representation.width + 1)
                / 2);
            self.current_tetromino_y = self.y + 1;
        }
        self.current_tetromino = Some(tetromino);
    }

    /// Puts the pending piece in play, or a random one where none is pending,
    /// and draws the piece that will follow it.
    pub fn place_new_tetromino(&mut self, gs: &mut GameState)
        requires
            old(self).wf(),
            old(gs).next_tetromino matches Some(pending) ==> pending.well_formed(),
        ensures
            final(self).wf(),
            match old(gs).next_tetromino {
                Some(pending) => final(self)@ == old(self)@.with_new_piece(pending@),
                None => exists|kind: PieceKind|
                    final(self)@ == old(self)@.with_new_piece(#[trigger] kind.shapes()),
            },
            final(gs).next_tetromino matches Some(following) && exists|kind: PieceKind|
                following@ == #[trigger] kind.shapes(),
            final(gs).display == old(gs).display,
            final(gs).state == old(gs).state,
    {
        let tetromino: Tetromino = match &gs.next_tetromino {
            Some(pending) => pending.clone(),
            None => {
                let drawn: Tetromino = self.tetromino_generator.get_random_tetromino();
                proof {
                    let kind = choose|kind: PieceKind| drawn@ == #[trigger] kind.shapes();
                    lemma_kind_is_well_formed(kind);
                }
                drawn
            },
        };
        self.place_tetromino(tetromino);
        gs.next_tetromino = Some(self.tetromino_generator.get_random_tetromino());
    }

    /// One tick of play: the keys, then the descent by the clock.
    pub fn update(&mut self, gs: &mut GameState, down_keys: &Vec<Key>)
        requires
            old(self).wf(),
            old(self)@.after_keys(down_keys@).locks(
                state_after_keys(old(gs).state, down_keys@),
                true,
            ) ==> old(self)@.after_keys(down_keys@).piece_in_grid(),
        ensures
            final(self).wf(),
            exists|due: bool|
                {
                    &&& final(self)@ == #[trigger] old(self)@.after_keys(down_keys@).after_descent(
                        state_after_keys(old(gs).state, down_keys@),
                        due,
                    )
                    &&& final(gs).state == old(self)@.after_keys(down_keys@).state_after_descent(
                        state_after_keys(old(gs).state, down_keys@),
                        due,
                    )
                },
            final(gs).display == old(gs).display,
            final(gs).next_tetromino == old(gs).next_tetromino,
    {
        self.process_input(gs, down_keys);
        self.drop_tetromino(gs);
    }

    /// Draws the board: the border, the playfield, the piece in play and,
    /// where the piece has not landed, its shadow at the landing place.
    pub fn render(&self, gs: &mut GameState)
        requires
            self.wf(),
            old(gs).display.wf(),
            old(gs).display@.cells_fit(self@.render_cells()),
        ensures
            final(gs).display.wf(),
            final(gs).display@ == old(gs).display@.with_cells(self@.render_cells()),
            final(gs).state == old(gs).state,
            final(gs).next_tetromino == old(gs).next_tetromino,
    {
        let ghost board = self@;
        let ghost canvas = gs.display@;
        let ghost rows = board.border_rows();
        let ghost columns = board.border_columns();
        let ghost grid = board.grid_cells();
        let ghost piece = board.piece_cells();
        let ghost shadow = board.shadow_cells();
        proof {
            lemma_cells_fit_joined(canvas, rows + columns + grid + piece, shadow);
            lemma_cells_fit_joined(canvas, rows + columns + grid, piece);
            lemma_cells_fit_joined(canvas, rows + columns, grid);
            lemma_cells_fit_joined(canvas, rows, columns);
            assert(rows.subrange(0, 0) =~= Seq::<Cell>::empty());
        }
        let mut px: u32 = 0;
        while px < BOARD_WIDTH as u32
            invariant
                px <= BOARD_WIDTH,
                self.wf(),
                board == self@,
                self.x == board.x,
                self.y == board.y,
                rows == board.border_rows(),
                canvas.cells_fit(rows),
                gs.display.wf(),
                gs.display@ == canvas.with_cells(rows.subrange(0, 2 * px)),
                gs.state == old(gs).state,
                gs.next_tetromino == old(gs).next_tetromino,
            decreases BOARD_WIDTH - px,
        {
            proof {
                lemma_with_cells_next(canvas, rows, 2 * px);
                lemma_with_cells_next(canvas, rows, 2 * px + 1);
            }
            gs.display.draw_block(BORDER_COLOR, self.x + px, self.y);
            gs.display.draw_block(BORDER_COLOR, self.x + px, self.y + (BOARD_HEIGHT as u32) - 1);
            px += 1;
        }
        let ghost framed = gs.display@;
        proof {
            assert(rows.subrange(0, 2 * BOARD_WIDTH as int) =~= rows);
            lemma_with_cells_keeps_canvas(canvas, rows);
            assert(framed.cells_fit(columns));
            assert(columns.subrange(0, 0) =~= Seq::<Cell>::empty());
        }
        let mut py: u32 = 1;
        while py < BOARD_HEIGHT as u32
            invariant
                1 <= py <= BOARD_HEIGHT,
                self.wf(),
                board == self@,
                self.x == board.x,
                self.y == board.y,
                columns == board.border_columns(),
                framed.cells_fit(columns),
                gs.display.wf(),
                gs.display@ == framed.with_cells(columns.subrange(0, 2 * (py - 1))),
                gs.state == old(gs).state,
                gs.next_tetromino == old(gs).next_tetromino,
            decreases BOARD_HEIGHT - py,
        {
            proof {
                lemma_with_cells_next(framed, columns, 2 * (py - 1));
                lemma_with_cells_next(framed, columns, 2 * (py - 1) + 1);
            }
            gs.display.draw_block(BORDER_COLOR, self.x, self.y + py);
            gs.display.draw_block(BORDER_COLOR, self.x + (BOARD_WIDTH as u32) - 1, self.y + py);
            py += 1;
        }
        let ghost walled = gs.display@;
        proof {
            assert(columns.subrange(0, 2 * (BOARD_HEIGHT - 1) as int) =~= columns);
            lemma_with_cells_keeps_canvas(framed, columns);
            lemma_with_cells_joined(canvas, rows, columns);
            assert(walled.cells_fit(grid));
            assert(grid.subrange(0, 0) =~= Seq::<Cell>::empty());
        }
        let mut h: u32 = 0;
        while h < GRID_HEIGHT as u32
            invariant
                h <= GRID_HEIGHT,
                self.wf(),
                board == self@,
                self.x == board.x,
                self.y == board.y,
                grid == board.grid_cells(),
                walled.cells_fit(grid),
                gs.display.wf(),
                gs.display@ == walled.with_cells(grid.subrange(0, GRID_WIDTH * h)),
                gs.state == old(gs).state,
                gs.next_tetromino == old(gs).next_tetromino,
            decreases GRID_HEIGHT - h,
        {
            let mut w: u32 = 0;
            while w < GRID_WIDTH as u32
                invariant
                    h < GRID_HEIGHT,
                    w <= GRID_WIDTH,
                    self.wf(),
                    board == self@,
                    self.x == board.x,
                    self.y == board.y,
                    grid == board.grid_cells(),
                    walled.cells_fit(grid),
                    gs.display.wf(),
                    gs.display@ == walled.with_cells(grid.subrange(0, GRID_WIDTH * h + w)),
                    gs.state == old(gs).state,
                    gs.next_tetromino == old(gs).next_tetromino,
                decreases GRID_WIDTH - w,
            {
                proof {
                    lemma_with_cells_next(walled, grid, GRID_WIDTH * h + w);
                }
                let state: BlockState = self.state[h as usize][w as usize];
                let x: u32 = w + self.x + 1;
                let y: u32 = h + self.y + 1;
                gs.display.draw_block(state.color, x, y);
                w += 1;
            }
            h += 1;
        }
        let ghost filled = gs.display@;
        proof {
            assert(grid.subrange(0, (GRID_WIDTH * GRID_HEIGHT) as int) =~= grid);
            lemma_with_cells_keeps_canvas(walled, grid);
            lemma_with_cells_joined(canvas, rows + columns, grid);
            assert(filled.cells_fit(piece));
            assert(filled.cells_fit(shadow));
        }
        if let Some(tetromino) = &self.current_tetromino {
            tetromino.render(
                self.current_tetromino_x,
                self.current_tetromino_y,
                &mut gs.display,
            );
            proof {
                lemma_with_cells_keeps_canvas(filled, piece);
            }
            let mut y: u32 = self.current_tetromino_y;
            loop
                invariant_except_break
                    self.wf(),
                    board == self@,
                    board.piece is Some,
                    self.current_tetromino_y <= y <= self.y + GRID_HEIGHT,
                    board.landing_y(board.piece->0.y) == board.landing_y(y as int),
                ensures
                    self.current_tetromino_y + 1 <= y <= self.y + GRID_HEIGHT + 1,
                    y - 1 == board.landing_y(board.piece->0.y),
                decreases self.y + BOARD_HEIGHT - y,
            {
                y += 1;
                if self.detect_collision(self.current_tetromino_x, y) {
                    break ;
                }
            }
            if self.current_tetromino_y != y - 1 {
                tetromino.render_shadow(self.current_tetromino_x, y - 1, &mut gs.display);
            }
        }
        proof {
            lemma_with_cells_joined(canvas, rows + columns + grid, piece);
            lemma_with_cells_joined(canvas, rows + columns + grid + piece, shadow);
            assert(filled.with_cells(Seq::<Cell>::empty()) == filled);
        }
    }

    /// Whether a descent by the clock is safe in this phase: whether the
    /// piece, should the descent lock it, lies inside the playfield.
    pub fn can_drop(&self, gs: &GameState) -> (safe: bool)
        requires
            self.wf(),
        ensures
            safe == (self@.locks(gs.state, true) ==> self@.piece_in_grid()),
    {
        if gs.state == State::DropBlock {
            return true;
        }
        if let Some(tetromino) = &self.current_tetromino {
            if let Some(representation) = tetromino.current_representation() {
                assert(representation@.well_formed());
                return self.current_tetromino_y + representation.height <= self.y
                    + BOARD_HEIGHT as u32 - 1;
            }
        }
        true
    }

    /// One tick of play where it is safe: the keys, then, unless the piece
    /// would be locked outside the playfield, the descent by the clock.
    /// Returns whether the descent was made.
    pub fn try_update(&mut self, gs: &mut GameState, down_keys: &Vec<Key>) -> (done: bool)
        requires
            old(self).wf(),
        ensures
            final(self).wf(),
            done == (old(self)@.after_keys(down_keys@).locks(
                state_after_keys(old(gs).state, down_keys@),
                true,
            ) ==> old(self)@.after_keys(down_keys@).piece_in_grid()),
            done ==> exists|due: bool|
                {
                    &&& final(self)@ == #[trigger] old(self)@.after_keys(down_keys@).after_descent(
                        state_after_keys(old(gs).state, down_keys@),
                        due,
                    )
                    &&& final(gs).state == old(self)@.after_keys(down_keys@).state_after_descent(
                        state_after_keys(old(gs).state, down_keys@),
                        due,
                    )
                },
            !done ==> final(self)@ == old(self)@.after_keys(down_keys@) && final(gs).state
                == state_after_keys(old(gs).state, down_keys@),
            final(gs).display == old(gs).display,
            final(gs).next_tetromino == old(gs).next_tetromino,
    {
        self.process_input(gs, down_keys);
        if self.can_drop(gs) {
            self.drop_tetromino(gs);
            true
        } else {
            false
        }
    }

    /// Where the piece in play has its origin on the screen grid, if there
    /// is one.
    pub fn tetromino_position(&self) -> (position: Option<(u32, u32)>)
        ensures
            match self@.piece {
                Some(p) => position == Some((p.x as u32, p.y as u32)) && 0 <= p.x <= u32::MAX && 0
                    <= p.y <= u32::MAX,
                None => position is None,
            },
    {
        if self.current_tetromino.is_some() {
            Some((self.current_tetromino_x, self.current_tetromino_y))
        } else {
            None
        }
    }

    /// The piece in play, if there is one.
    pub fn current_tetromino(&self) -> (piece: Option<&Tetromino>)
        ensures
            match self@.piece {
                Some(p) => piece matches Some(t) && t@ == p.shapes,
                None => piece is None,
            },
    {
        self.current_tetromino.as_ref()
    }

    /// Whether all that is drawn of the board lies inside the grid of the
    /// display.
    pub fn can_render(&self, gs: &GameState) -> (fits: bool)
        requires
            self.wf(),
            gs.display.wf(),
        ensures
            fits == gs.display@.cells_fit(self@.render_cells()),
    {
        let ghost board = self@;
        let ghost canvas = gs.display@;
        let ghost rows = board.border_rows();
        let ghost columns = board.border_columns();
        let ghost grid = board.grid_cells();
        let ghost piece = board.piece_cells();
        let ghost shadow = board.shadow_cells();
        proof {
            lemma_cells_fit_joined(canvas, rows + columns + grid + piece, shadow);
            lemma_cells_fit_joined(canvas, rows + columns + grid, piece);
            lemma_cells_fit_joined(canvas, rows + columns, grid);
            lemma_cells_fit_joined(canvas, rows, columns);
        }
        let corner_x: u32 = self.x + (BOARD_WIDTH as u32) - 1;
        let corner_y: u32 = self.y + (BOARD_HEIGHT as u32) - 1;
        if !gs.display.can_draw_block(corner_x, corner_y) {
            proof {
                let last = columns[2 * (BOARD_HEIGHT - 1) - 1];
                assert(last.x == corner_x && last.y == corner_y);
            }
            return false;
        }
        if let Some(tetromino) = &self.current_tetromino {
            if let Some(representation) = tetromino.current_representation() {
                let ghost shape = board.piece->0.shape();
                assert(representation@ == shape);
                assert(shape.well_formed());
                let n: usize = representation.vertices.len();
                let mut i: usize = 0;
                while i < n
                    invariant
                        i <= n,
                        n == shape.vertices.len(),
                        representation@ == shape,
                        shape.well_formed(),
                        self.wf(),
                        gs.display.wf(),
                        board == self@,
                        canvas == gs.display@,
                        board.piece is Some,
                        shape == board.piece->0.shape(),
                        piece == board.piece_cells(),
                        canvas.cells_fit(board.render_cells()) ==> canvas.cells_fit(piece),
                        self.current_tetromino_x == board.piece->0.x,
                        self.current_tetromino_y == board.piece->0.y,
                        forall|j: int|
                            0 <= j < i ==> canvas.block_fits(
                                (#[trigger] piece[j]).x,
                                piece[j].y,
                            ),
                    decreases n - i,
                {
                    let (vertex_x, vertex_y) = representation.vertices[i];
                    assert(shape.vertices[i as int] == (vertex_x, vertex_y));
                    if !gs.display.can_draw_block(
                        self.current_tetromino_x + vertex_x,
                        self.current_tetromino_y + vertex_y,
                    ) {
                        proof {
                            assert(piece.len() == n);
                            assert(piece[i as int].x == self.current_tetromino_x + vertex_x);
                            assert(piece[i as int].y == self.current_tetromino_y + vertex_y);
                            assert(!canvas.block_fits(piece[i as int].x, piece[i as int].y));
                            assert(!canvas.cells_fit(piece));
                        }
                        return false;
                    }
                    i += 1;
                }
                proof {
                    let p = board.piece->0;
                    lemma_landing_is_lowest(board, p.y);
                    if board.landing_y(p.y) != p.y {
                        assert(!board.collides_at(p.x, board.landing_y(p.y)));
                        assert(!board.hits_floor(board.landing_y(p.y)));
                    }
                    assert(canvas.cells_fit(shadow));
                }
            }
        }
        proof {
            assert(canvas.cells_fit(rows));
            assert(canvas.cells_fit(columns));
            assert(canvas.cells_fit(grid));
            assert(canvas.cells_fit(piece));
            assert(canvas.cells_fit(shadow));
        }
        true
    }

    /// Sets the cell at (`row`, `col`) of the playfield and gives it the
    /// color.
    pub fn occupy(&mut self, row: usize, col: usize, color: u32)
        requires
            row < GRID_HEIGHT,
            col < GRID_WIDTH,
            old(self).wf(),
        ensures
            final(self).wf(),
            final(self)@ == (BoardView {
                rows: old(self)@.rows.update(
                    row as int,
                    old(self)@.rows[row as int].update(col as int, BlockState { set: true, color }),
                ),
                ..old(self)@
            }),
    {
        self.state[row][col].set = true;
        self.state[row][col].color = color;
        assert(self@.rows[row as int] =~= old(self)@.rows[row as int].update(
            col as int,
            BlockState { set: true, color },
        ));
        assert(self@.rows =~= old(self)@.rows.update(
            row as int,
            old(self)@.rows[row as int].update(col as int, BlockState { set: true, color }),
        ));
    }
}

/// The piece collides at a place where it would reach the bottom border or
/// where one of its cells would lie on a cell that is set; it does not where
/// it would stay above the bottom border with every one of its cells on a
/// cell that is not set.
pub proof fn lemma_collision_cases(board: BoardView, x: int, y: int, i: int)
    requires
        board.piece is Some,
        0 <= i < board.piece->0.shape().vertices.len(),
    ensures
        y + board.piece->0.shape().height >= board.y + BOARD_HEIGHT ==> board.collides_at(x, y),
        board.vertex_is_set(x, y, board.piece->0.shape().vertices[i]) ==> board.collides_at(x, y),
        y + board.piece->0.shape().height < board.y + BOARD_HEIGHT && (forall|j: int|
            0 <= j < board.piece->0.shape().vertices.len() ==> !board.vertex_is_set(
                x,
                y,
                #[trigger] board.piece->0.shape().vertices[j],
            )) ==> !board.collides_at(x, y),
{
}

/// Whether the piece in play collides at a place does not depend on where
/// the piece is.
pub proof fn lemma_collision_ignores_row(board: BoardView, moved: BoardView)
    requires
        board.piece is Some,
        moved == board.moved(board.piece->0.x, moved.piece->0.y),
    ensures
        forall|x: int, y: int| board.collides_at(x, y) == moved.collides_at(x, y),
        forall|y: int| board.landing_y(y) == moved.landing_y(y),
{
    assert forall|x: int, y: int| board.collides_at(x, y) == moved.collides_at(x, y) by {
        lemma_collision_of_same_shape(board, moved, x, y);
    }
    assert forall|y: int| board.landing_y(y) == moved.landing_y(y) by {
        lemma_landing_of_same_shape(board, moved, y);
    }
}

proof fn lemma_collision_of_same_shape(board: BoardView, moved: BoardView, x: int, y: int)
    requires
        board.piece is Some,
        moved == board.moved(board.piece->0.x, moved.piece->0.y),
    ensures
        board.collides_at(x, y) == moved.collides_at(x, y),
{
    let shape = board.piece->0.shape();
    if board.hits_block(x, y) {
        let i = choose|i: int|
            0 <= i < shape.vertices.len() && board.vertex_is_set(
                x,
                y,
                #[trigger] shape.vertices[i],
            );
        assert(moved.vertex_is_set(x, y, shape.vertices[i]));
    }
    if moved.hits_block(x, y) {
        let i = choose|i: int|
            0 <= i < shape.vertices.len() && moved.vertex_is_set(
                x,
                y,
                #[trigger] shape.vertices[i],
            );
        assert(board.vertex_is_set(x, y, shape.vertices[i]));
    }
}

proof fn lemma_landing_of_same_shape(board: BoardView, moved: BoardView, y: int)
    requires
        board.piece is Some,
        moved == board.moved(board.piece->0.x, moved.piece->0.y),
    ensures
        board.landing_y(y) == moved.landing_y(y),
    decreases board.y + BOARD_HEIGHT - y,
{
    lemma_collision_of_same_shape(board, moved, board.piece->0.x, y + 1);
    if !board.collides_at(board.piece->0.x, y + 1) {
        lemma_landing_of_same_shape(board, moved, y + 1);
    }
}

/// A fall ends in the first row, from the one it starts in, below which the
/// piece collides: no row passed on the way collides, and the next one does.
pub proof fn lemma_landing_is_lowest(board: BoardView, y: int)
    requires
        board.piece is Some,
    ensures
        y <= board.landing_y(y),
        board.collides_at(board.piece->0.x, board.landing_y(y) + 1),
        forall|between: int|
            y < between <= board.landing_y(y) ==> !board.collides_at(board.piece->0.x, between),
    decreases board.y + BOARD_HEIGHT - y,
{
    if !board.collides_at(board.piece->0.x, y + 1) {
        lemma_landing_is_lowest(board, y + 1);
    }
}

/// On an empty playfield a piece that lies above the bottom border falls
/// until it stands on it.
pub proof fn lemma_landing_on_empty_grid(board: BoardView, y: int)
    requires
        board.well_formed(),
        board.rows == empty_rows(),
        board.piece is Some,
        board.y + 1 <= y,
        y + board.piece->0.shape().height <= board.y + BOARD_HEIGHT - 1,
    ensures
        board.landing_y(y) + board.piece->0.shape().height == board.y + BOARD_HEIGHT - 1,
    decreases board.y + BOARD_HEIGHT - y,
{
    let p = board.piece->0;
    let shape = p.shape();
    assert(shape.well_formed());
    if y + shape.height < board.y + BOARD_HEIGHT - 1 {
        if board.hits_block(p.x, y + 1) {
            let i = choose|i: int|
                0 <= i < shape.vertices.len() && board.vertex_is_set(
                    p.x,
                    y + 1,
                    #[trigger] shape.vertices[i],
                );
            let row = board.row_of(y + 1 + shape.vertices[i].1);
            let col = board.col_of(p.x + shape.vertices[i].0);
            assert(0 <= row < GRID_HEIGHT && 0 <= col < GRID_WIDTH);
            assert(board.rows[row][col] == empty_block());
        }
        lemma_landing_on_empty_grid(board, y + 1);
    }
}

/// A key leaves a well-formed board well formed.
pub proof fn lemma_key_keeps_board_well_formed(board: BoardView, key: Key)
    requires
        board.well_formed(),
    ensures
        board.after_key(key).well_formed(),
{
    if board.piece is Some && key == Key::Up {
        lemma_rotated_is_well_formed(board.piece->0.shapes);
    }
}

/// A descent leaves a well-formed board well formed, as long as the piece,
/// should the descent lock it, lies inside the playfield.
pub proof fn lemma_descent_keeps_board_well_formed(board: BoardView, state: State, due: bool)
    requires
        board.well_formed(),
        board.locks(state, due) ==> board.piece_in_grid(),
    ensures
        board.after_descent(state, due).well_formed(),
{
    if board.attempts_descent(state, due) {
        let p = board.piece->0;
        if state == State::DropBlock {
            lemma_landing_is_lowest(board, p.y);
            if board.landing_y(p.y) > p.y {
                assert(!board.collides_at(p.x, board.landing_y(p.y)));
            }
        } else if board.collides_at(p.x, p.y + 1) {
            let locked = board.locked_rows();
            assert(rows_well_formed(locked)) by {
                assert forall|r: int| 0 <= r < locked.len() implies row_well_formed(
                    #[trigger] locked[r],
                ) by {
                    assert(row_well_formed(board.rows[r]));
                }
            }
            if full_rows(locked) > 0 {
                assert(rows_well_formed(cleared(locked))) by {
                    assert forall|r: int| 0 <= r < locked.len() implies row_well_formed(
                        #[trigger] cleared(locked)[r],
                    ) by {
                        assert(row_well_formed(locked[r]));
                    }
                }
                lemma_compacted_is_well_formed(cleared(locked));
            }
        }
    }
}

/// A piece of four cells fills no row of an empty playfield: locked there,
/// it leaves no row full.
pub proof fn lemma_lock_on_empty_grid_fills_no_row(board: BoardView)
    requires
        board.well_formed(),
        board.rows == empty_rows(),
        board.piece is Some,
    ensures
        full_rows(board.locked_rows()) == 0,
        after_clear(board.locked_rows()) == board.locked_rows(),
{
    let shape = board.piece->0.shape();
    let locked = board.locked_rows();
    assert(shape.well_formed());
    assert forall|r: int| 0 <= r < locked.len() implies !row_is_full(#[trigger] locked[r]) by {
        assert_by_contradiction!(!row_is_full(locked[r]), {
            // Each of the first five cells of the row is set, so a vertex
            // lies on it.
            assert forall|c: int| 0 <= c < 5 implies board.covers(4, r, c) by {
                assert(locked[r][c].set);
                assert(board.rows[r][c] == empty_block());
            }
            let v0 = choose|i: int|
                0 <= i < 4 && board.vertex_lies_on(#[trigger] shape.vertices[i], r, 0);
            let v1 = choose|i: int|
                0 <= i < 4 && board.vertex_lies_on(#[trigger] shape.vertices[i], r, 1);
            let v2 = choose|i: int|
                0 <= i < 4 && board.vertex_lies_on(#[trigger] shape.vertices[i], r, 2);
            let v3 = choose|i: int|
                0 <= i < 4 && board.vertex_lies_on(#[trigger] shape.vertices[i], r, 3);
            let v4 = choose|i: int|
                0 <= i < 4 && board.vertex_lies_on(#[trigger] shape.vertices[i], r, 4);
            assert(board.covers(4, r, 0) && board.covers(4, r, 1) && board.covers(4, r, 2)
                && board.covers(4, r, 3) && board.covers(4, r, 4));
            // Five cells and four vertices: one vertex would lie on two cells.
            assert(v0 == v1 || v0 == v2 || v0 == v3 || v0 == v4 || v1 == v2 || v1 == v3 || v1
                == v4 || v2 == v3 || v2 == v4 || v3 == v4);
        });
    }
    lemma_no_full_row_counts_zero(locked);
}

/// A piece dropped on an empty playfield: the drop brings it to stand on the
/// bottom border and play goes on; the next descent by the clock locks it
/// where it stands, clears no row, and asks for the next piece.
pub proof fn lemma_drop_on_empty_board(board: BoardView)
    requires
        board.well_formed(),
        board.rows == empty_rows(),
        board.piece is Some,
        board.piece_in_grid(),
    ensures
        ({
            let dropped = board.after_descent(State::DropBlock, false);
            let locked = dropped.after_descent(State::Playing, true);
            &&& board.state_after_descent(State::DropBlock, false) == State::Playing
            &&& dropped == board.moved(
                board.piece->0.x,
                board.y + BOARD_HEIGHT - 1 - board.piece->0.shape().height,
            )
            &&& dropped.state_after_descent(State::Playing, true) == State::NewTetrominoNeeded
            &&& locked.piece is None
            &&& locked.rows == dropped.locked_rows()
        }),
{
    let p = board.piece->0;
    lemma_landing_on_empty_grid(board, p.y);
    lemma_landing_is_lowest(board, p.y);
    let dropped = board.after_descent(State::DropBlock, false);
    lemma_collision_ignores_row(board, dropped);
    assert(dropped.collides_at(p.x, dropped.piece->0.y + 1));
    lemma_lock_on_empty_grid_fills_no_row(dropped);
}

/// The pieces of the catalog are well formed.
pub proof fn lemma_kind_is_well_formed(kind: PieceKind)
    ensures
        kind.shapes().len() > 0,
        all_well_formed(kind.shapes()),
{
    let shapes = kind.shapes();
    assert forall|i: int| 0 <= i < shapes.len() implies (#[trigger] shapes[i]).well_formed() by {
        lemma_catalog_shapes(kind, i);
    }
}

/// Rotating a cycle of well-formed states leaves a cycle of well-formed
/// states, as long as before.
pub proof fn lemma_rotated_is_well_formed(shapes: Seq<Shape>)
    requires
        shapes.len() > 0,
        all_well_formed(shapes),
    ensures
        rotated(shapes).len() == shapes.len(),
        all_well_formed(rotated(shapes)),
{
    assert forall|i: int| 0 <= i < rotated(shapes).len() implies (#[trigger] rotated(
        shapes,
    )[i]).well_formed() by {
        if i < shapes.len() - 1 {
            assert(rotated(shapes)[i] == shapes[i + 1]);
        } else {
            assert(rotated(shapes)[i] == shapes[0]);
        }
    }
}

/// Compacting rows that are well formed leaves them well formed.
pub proof fn lemma_compacted_is_well_formed(rows: Rows)
    requires
        rows_well_formed(rows),
    ensures
        rows_well_formed(compacted(rows)),
        compacted(rows).len() == rows.len(),
{
    let pred = |row: Row| !row_is_empty(row);
    rows.lemma_filter_len(pred);
    assert forall|r: int| 0 <= r < compacted(rows).len() implies row_well_formed(
        #[trigger] compacted(rows)[r],
    ) by {
        let gap = rows.len() - kept(rows).len();
        if r >= gap {
            let row = kept(rows)[r - gap];
            assert(kept(rows).contains(row));
            rows.lemma_filter_contains_rev(pred, row);
            let i = choose|i: int| 0 <= i < rows.len() && rows[i] == row;
            assert(row_well_formed(rows[i]));
        }
    }
}

} // verus!
