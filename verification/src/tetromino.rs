//! Pieces: their pre-baked rotation states and the cursor that walks them.

use crate::display::{lemma_with_cells_next, Cell, Display};
use rand::Rng;
use vstd::prelude::*;

verus! {

/// The mathematical value of one rotation state.
pub struct Shape {
    pub vertices: Seq<(u32, u32)>,
    pub width: u32,
    pub height: u32,
    pub color: u32,
}

impl Shape {
    /// Four cells, all inside a bounding box of at most four by four.
    pub open spec fn well_formed(self) -> bool {
        &&& self.vertices.len() == 4
        &&& 1 <= self.width <= 4
        &&& 1 <= self.height <= 4
        &&& forall|i: int|
            0 <= i < self.vertices.len() ==> (#[trigger] self.vertices[i]).0 < self.width
                && self.vertices[i].1 < self.height
    }

    /// The cells of the shape with its origin at (`x`, `y`) of the screen
    /// grid, each to be drawn in the color.
    pub open spec fn cells_at(self, color: u32, x: int, y: int) -> Seq<Cell> {
        Seq::new(
            self.vertices.len(),
            |i: int| Cell { color, x: x + self.vertices[i].0, y: y + self.vertices[i].1 },
        )
    }

    /// The bounding box is as small as the cells allow.
    pub open spec fn tight(self) -> bool {
        &&& exists|i: int|
            0 <= i < self.vertices.len() && (#[trigger] self.vertices[i]).0 + 1 == self.width
        &&& exists|i: int|
            0 <= i < self.vertices.len() && (#[trigger] self.vertices[i]).1 + 1 == self.height
    }
}

/// One step of the rotation cycle: the first state moves to the back.
pub open spec fn rotated(shapes: Seq<Shape>) -> Seq<Shape> {
    if shapes.len() == 0 {
        shapes
    } else {
        shapes.drop_first().push(shapes[0])
    }
}

/// `n` steps of the rotation cycle.
pub open spec fn rotated_by(shapes: Seq<Shape>, n: nat) -> Seq<Shape>
    decreases n,
{
    if n == 0 {
        shapes
    } else {
        rotated(rotated_by(shapes, (n - 1) as nat))
    }
}

/// The cycle read from position `k`: what lies from `k` on, then what lies before it.
pub open spec fn cycle_from(shapes: Seq<Shape>, k: int) -> Seq<Shape> {
    shapes.subrange(k, shapes.len() as int) + shapes.subrange(0, k)
}

/// A cycle read from any position holds each of its states.
pub proof fn lemma_cycle_holds_each_state(shapes: Seq<Shape>, k: int, i: int)
    requires
        0 <= k <= shapes.len(),
        0 <= i < shapes.len(),
    ensures
        cycle_from(shapes, k).len() == shapes.len(),
        exists|j: int| 0 <= j < shapes.len() && #[trigger] cycle_from(shapes, k)[j] == shapes[i],
{
    if i >= k {
        assert(cycle_from(shapes, k)[i - k] == shapes[i]);
    } else {
        assert(cycle_from(shapes, k)[i + (shapes.len() - k)] == shapes[i]);
    }
}

/// Every state of a cycle is well formed.
pub open spec fn all_well_formed(shapes: Seq<Shape>) -> bool {
    forall|i: int| 0 <= i < shapes.len() ==> (#[trigger] shapes[i]).well_formed()
}

/// A cycle of well-formed states, read from any position, is a cycle of
/// well-formed states.
pub proof fn lemma_cycle_of_well_formed_states(shapes: Seq<Shape>, k: int)
    requires
        0 <= k <= shapes.len(),
        all_well_formed(shapes),
    ensures
        all_well_formed(cycle_from(shapes, k)),
{
    let cycle = cycle_from(shapes, k);
    assert forall|j: int| 0 <= j < cycle.len() implies (#[trigger] cycle[j]).well_formed() by {
        if j < shapes.len() - k {
            assert(cycle[j] == shapes[j + k]);
        } else {
            assert(cycle[j] == shapes[j - (shapes.len() - k)]);
        }
    }
}

/// One rotation state of a piece: the cells it covers relative to its
/// origin, its bounding box and its color.
#[derive(Debug)]
pub struct Representation {
    pub vertices: Vec<(u32, u32)>,
    pub width: u32,
    pub height: u32,
    pub color: u32,
}

impl View for Representation {
    type V = Shape;

    open spec fn view(&self) -> Shape {
        Shape {
            vertices: self.vertices@,
            width: self.width,
            height: self.height,
            color: self.color,
        }
    }
}

impl Clone for Representation {
    fn clone(&self) -> (copy: Self)
        ensures
            copy@ == self@,
    {
        let mut vertices: Vec<(u32, u32)> = Vec::new();
        let n: usize = self.vertices.len();
        let mut i: usize = 0;
        while i < n
            invariant
                n == self.vertices@.len(),
                i <= n,
                vertices@ == self.vertices@.subrange(0, i as int),
            decreases n - i,
        {
            vertices.push(self.vertices[i]);
            i += 1;
        }
        assert(vertices@ == self.vertices@);
        Representation { vertices, width: self.width, height: self.height, color: self.color }
    }
}

/// The color in which the landing place of a piece is drawn.
pub const SHADOW_COLOR: u32 = 0xFF161616;

fn draw_vertices(representation: &Representation, color: u32, x: u32, y: u32, display: &mut Display)
    requires
        old(display).wf(),
        old(display)@.cells_fit(representation@.cells_at(color, x as int, y as int)),
    ensures
        final(display).wf(),
        final(display)@ == old(display)@.with_cells(
            representation@.cells_at(color, x as int, y as int),
        ),
{
    let ghost cells = representation@.cells_at(color, x as int, y as int);
    let n: usize = representation.vertices.len();
    let mut i: usize = 0;
    while i < n
        invariant
            i <= n,
            n == representation.vertices@.len(),
            cells == representation@.cells_at(color, x as int, y as int),
            old(display)@.cells_fit(cells),
            display.wf(),
            display@ == old(display)@.with_cells(cells.subrange(0, i as int)),
        decreases n - i,
    {
        let (vertex_x, vertex_y) = representation.vertices[i];
        proof {
            lemma_with_cells_next(old(display)@, cells, i as int);
        }
        display.draw_block(color, x + vertex_x, y + vertex_y);
        i += 1;
    }
    assert(cells.subrange(0, n as int) =~= cells);
}

/// The view of each element of a list of rotation states.
pub open spec fn shapes_of(representations: Seq<Representation>) -> Seq<Shape> {
    representations.map_values(|r: Representation| r@)
}

/// A live piece: its rotation states in their fixed cyclic order and a cursor
/// on the current one.
#[derive(Debug)]
pub struct Tetromino {
    representations: Vec<Representation>,
    cursor: usize,
}

impl View for Tetromino {
    type V = Seq<Shape>;

    /// The rotation states in the order in which rotating reaches them,
    /// starting with the current one.
    closed spec fn view(&self) -> Seq<Shape> {
        cycle_from(shapes_of(self.representations@), self.cursor as int)
    }
}

impl Tetromino {
    #[verifier::type_invariant]
    spec fn cursor_in_range(self) -> bool {
        if self.representations@.len() == 0 {
            self.cursor == 0
        } else {
            self.cursor < self.representations@.len()
        }
    }

    /// Every rotation state is well formed, and there is at least one.
    pub open spec fn well_formed(&self) -> bool {
        self@.len() > 0 && all_well_formed(self@)
    }

    /// Whether every rotation state is well formed, and there is at least
    /// one.
    pub fn is_well_formed(&self) -> (well_formed: bool)
        ensures
            well_formed == self.well_formed(),
    {
        proof {
            use_type_invariant(self);
        }
        let n: usize = self.representations.len();
        if n == 0 {
            return false;
        }
        let ghost shapes = shapes_of(self.representations@);
        let mut i: usize = 0;
        while i < n
            invariant
                i <= n,
                n == self.representations@.len(),
                shapes == shapes_of(self.representations@),
                forall|j: int| 0 <= j < i ==> (#[trigger] shapes[j]).well_formed(),
            decreases n - i,
        {
            let representation = &self.representations[i];
            assert(representation@ == shapes[i as int]);
            let mut inside: bool = representation.vertices.len() == 4 && 1 <= representation.width
                && representation.width <= 4 && 1 <= representation.height
                && representation.height <= 4;
            let m: usize = representation.vertices.len();
            let mut k: usize = 0;
            while k < m
                invariant
                    k <= m,
                    m == representation.vertices@.len(),
                    inside ==> forall|v: int|
                        0 <= v < k ==> (#[trigger] representation.vertices@[v]).0
                            < representation.width && representation.vertices@[v].1
                            < representation.height,
                    !inside ==> !representation@.well_formed(),
                    inside ==> representation.vertices@.len() == 4 && 1 <= representation.width
                        <= 4 && 1 <= representation.height <= 4,
                decreases m - k,
            {
                let (vertex_x, vertex_y) = representation.vertices[k];
                if vertex_x >= representation.width || vertex_y >= representation.height {
                    inside = false;
                }
                k += 1;
            }
            if !inside {
                proof {
                    use_type_invariant(self);
                    assert(shapes.len() == n);
                    lemma_cycle_holds_each_state(shapes, self.cursor as int, i as int);
                }
                return false;
            }
            i += 1;
        }
        proof {
            use_type_invariant(self);
            lemma_cycle_of_well_formed_states(shapes, self.cursor as int);
        }
        true
    }

    /// A piece whose current state is the first of `representations`.
    pub fn new(representations: Vec<Representation>) -> (piece: Self)
        ensures
            piece@ == shapes_of(representations@),
    {
        let piece = Tetromino { representations, cursor: 0 };
        assert(piece@ =~= shapes_of(representations@));
        piece
    }

    /// The current rotation state, if the piece has any.
    pub fn current_representation(&self) -> (current: Option<&Representation>)
        ensures
            self@.len() == 0 <==> current is None,
            current matches Some(r) ==> r@ == self@[0],
    {
        proof {
            use_type_invariant(self);
        }
        if self.representations.len() == 0 {
            None
        } else {
            Some(&self.representations[self.cursor])
        }
    }

    /// Whether the piece has a current rotation state and its cells, with its
    /// origin at the cell (`x`, `y`) of the grid, lie inside the grid.
    pub fn can_render(&self, x: u32, y: u32, display: &Display) -> (fits: bool)
        requires
            display.wf(),
        ensures
            fits == (self@.len() > 0 && display@.cells_fit(
                self@[0].cells_at(self@[0].color, x as int, y as int),
            )),
    {
        let Some(representation) = self.current_representation() else {
            return false;
        };
        let ghost cells = representation@.cells_at(representation.color, x as int, y as int);
        let n: usize = representation.vertices.len();
        let mut i: usize = 0;
        while i < n
            invariant
                i <= n,
                n == representation.vertices@.len(),
                display.wf(),
                self@.len() > 0,
                representation@ == self@[0],
                cells == representation@.cells_at(representation.color, x as int, y as int),
                forall|j: int|
                    0 <= j < i ==> {
                        &&& (#[trigger] cells[j]).x <= u32::MAX
                        &&& cells[j].y <= u32::MAX
                        &&& display@.block_fits(cells[j].x, cells[j].y)
                    },
            decreases n - i,
        {
            let (vertex_x, vertex_y) = representation.vertices[i];
            assert(cells[i as int].x == x + vertex_x && cells[i as int].y == y + vertex_y);
            let fits: bool = match (x.checked_add(vertex_x), y.checked_add(vertex_y)) {
                (Some(cell_x), Some(cell_y)) => display.can_draw_block(cell_x, cell_y),
                _ => false,
            };
            if !fits {
                proof {
                    assert(cells.len() == n);
                    let cell = cells[i as int];
                    assert(!(cell.x <= u32::MAX && cell.y <= u32::MAX && display@.block_fits(
                        cell.x,
                        cell.y,
                    )));
                    assert(!display@.cells_fit(cells));
                }
                return false;
            }
            i += 1;
        }
        true
    }

    /// Draws the current rotation state in its color, its origin at the cell
    /// (`x`, `y`) of the grid.
    pub fn render(&self, x: u32, y: u32, display: &mut Display)
        requires
            self@.len() > 0,
            old(display).wf(),
            old(display)@.cells_fit(self@[0].cells_at(self@[0].color, x as int, y as int)),
        ensures
            final(display).wf(),
            final(display)@ == old(display)@.with_cells(
                self@[0].cells_at(self@[0].color, x as int, y as int),
            ),
    {
        if let Some(current_representation) = self.current_representation() {
            draw_vertices(current_representation, current_representation.color, x, y, display);
        }
    }

    /// Draws the current rotation state in the color of shadows, its origin
    /// at the cell (`x`, `y`) of the grid.
    pub fn render_shadow(&self, x: u32, y: u32, display: &mut Display)
        requires
            self@.len() > 0,
            old(display).wf(),
            old(display)@.cells_fit(self@[0].cells_at(SHADOW_COLOR, x as int, y as int)),
        ensures
            final(display).wf(),
            final(display)@ == old(display)@.with_cells(
                self@[0].cells_at(SHADOW_COLOR, x as int, y as int),
            ),
    {
        if let Some(current_representation) = self.current_representation() {
            draw_vertices(current_representation, SHADOW_COLOR, x, y, display);
        }
    }

    /// Advances to the next rotation state, wrapping after the last.
    pub fn rotate(&mut self)
        requires
            old(self)@.len() > 0,
        ensures
            final(self)@ == rotated(old(self)@),
    {
        proof {
            use_type_invariant(&*self);
        }
        let ghost before = self@;
        let n: usize = self.representations.len();
        let next: usize = if self.cursor + 1 == n {
            0
        } else {
            self.cursor + 1
        };
        self.cursor = next;
        assert(self@ =~= rotated(before));
    }
}

impl Clone for Tetromino {
    fn clone(&self) -> (copy: Self)
        ensures
            copy@ == self@,
    {
        proof {
            use_type_invariant(self);
        }
        let mut representations: Vec<Representation> = Vec::new();
        let n: usize = self.representations.len();
        let mut i: usize = 0;
        while i < n
            invariant
                n == self.representations@.len(),
                i <= n,
                representations@.len() == i,
                forall|j: int|
                    0 <= j < i ==> (#[trigger] representations@[j])@ == self.representations@[j]@,
            decreases n - i,
        {
            representations.push(self.representations[i].clone());
            i += 1;
        }
        assert(shapes_of(representations@) =~= shapes_of(self.representations@));
        Tetromino { representations, cursor: self.cursor }
    }
}

/// The seven kinds of piece.
#[derive(Clone, Copy, Debug, PartialEq, Eq, Structural)]
pub enum PieceKind {
    I,
    O,
    J,
    L,
    S,
    Z,
    T,
}

/// A rotation state written out: four cells, the bounding box, the color.
pub open spec fn shape(
    a: (u32, u32),
    b: (u32, u32),
    c: (u32, u32),
    d: (u32, u32),
    width: u32,
    height: u32,
    color: u32,
) -> Shape {
    Shape { vertices: seq![a, b, c, d], width, height, color }
}

impl PieceKind {
    /// The position of the kind in the catalog.
    pub open spec fn index(self) -> int {
        match self {
            PieceKind::I => 0,
            PieceKind::O => 1,
            PieceKind::J => 2,
            PieceKind::L => 3,
            PieceKind::S => 4,
            PieceKind::Z => 5,
            PieceKind::T => 6,
        }
    }

    /// The kind at a position of the catalog.
    pub open spec fn at(index: int) -> PieceKind {
        if index == 0 {
            PieceKind::I
        } else if index == 1 {
            PieceKind::O
        } else if index == 2 {
            PieceKind::J
        } else if index == 3 {
            PieceKind::L
        } else if index == 4 {
            PieceKind::S
        } else if index == 5 {
            PieceKind::Z
        } else {
            PieceKind::T
        }
    }

    /// The color that every rotation state of the kind carries.
    pub open spec fn color(self) -> u32 {
        match self {
            PieceKind::I => 0xFF00F0F0,
            PieceKind::O => 0xF0F000,
            PieceKind::J => 0xFF0000F0,
            PieceKind::L => 0xFFF0A000,
            PieceKind::S => 0xFF00F000,
            PieceKind::Z => 0xFFF00000,
            PieceKind::T => 0xFFA000F0,
        }
    }

    /// The rotation states of the kind, in the order in which rotating
    /// reaches them.
    pub open spec fn shapes(self) -> Seq<Shape> {
        let color = self.color();
        match self {
            PieceKind::I => seq![
                shape((0, 0), (0, 1), (0, 2), (0, 3), 1, 4, color),
                shape((0, 0), (1, 0), (2, 0), (3, 0), 4, 1, color),
            ],
            PieceKind::O => seq![shape((0, 0), (1, 0), (0, 1), (1, 1), 2, 2, color)],
            PieceKind::J => seq![
                shape((1, 0), (1, 1), (0, 2), (1, 2), 2, 3, color),
                shape((0, 0), (0, 1), (1, 1), (2, 1), 3, 2, color),
                shape((0, 0), (1, 0), (0, 1), (0, 2), 2, 3, color),
                shape((0, 0), (1, 0), (2, 0), (2, 1), 3, 2, color),
            ],
            PieceKind::L => seq![
                shape((0, 0), (0, 1), (0, 2), (1, 2), 2, 3, color),
                shape((0, 0), (1, 0), (2, 0), (0, 1), 3, 2, color),
                shape((0, 0), (1, 0), (1, 1), (1, 2), 2, 3, color),
                shape((0, 1), (1, 1), (2, 1), (2, 0), 3, 2, color),
            ],
            PieceKind::S => seq![
                shape((1, 0), (2, 0), (0, 1), (1, 1), 3, 2, color),
                shape((0, 0), (0, 1), (1, 1), (1, 2), 2, 3, color),
            ],
            PieceKind::Z => seq![
                shape((0, 0), (1, 0), (1, 1), (2, 1), 3, 2, color),
                shape((1, 0), (1, 1), (0, 1), (0, 2), 2, 3, color),
            ],
            PieceKind::T => seq![
                shape((0, 0), (1, 0), (2, 0), (1, 1), 3, 2, color),
                shape((1, 0), (1, 1), (1, 2), (0, 1), 2, 3, color),
                shape((0, 1), (1, 1), (2, 1), (1, 0), 3, 2, color),
                shape((0, 0), (0, 1), (0, 2), (1, 1), 2, 3, color),
            ],
        }
    }

    /// The number of rotation states of the kind.
    pub open spec fn rotations(self) -> nat {
        match self {
            PieceKind::O => 1,
            PieceKind::I | PieceKind::S | PieceKind::Z => 2,
            PieceKind::J | PieceKind::L | PieceKind::T => 4,
        }
    }

    /// The kind at a position of the catalog.
    pub fn from_index(index: usize) -> (kind: PieceKind)
        requires
            index < 7,
        ensures
            kind == PieceKind::at(index as int),
            kind.index() == index,
    {
        if index == 0 {
            PieceKind::I
        } else if index == 1 {
            PieceKind::O
        } else if index == 2 {
            PieceKind::J
        } else if index == 3 {
            PieceKind::L
        } else if index == 4 {
            PieceKind::S
        } else if index == 5 {
            PieceKind::Z
        } else {
            PieceKind::T
        }
    }

    /// The position of the kind in the catalog.
    pub fn to_index(self) -> (index: usize)
        ensures
            index == self.index(),
            index < 7,
    {
        match self {
            PieceKind::I => 0,
            PieceKind::O => 1,
            PieceKind::J => 2,
            PieceKind::L => 3,
            PieceKind::S => 4,
            PieceKind::Z => 5,
            PieceKind::T => 6,
        }
    }
}

/// The seven kinds with their rotation states, by position.
pub open spec fn catalog() -> Seq<Seq<Shape>> {
    Seq::new(7, |k: int| PieceKind::at(k).shapes())
}

/// Every rotation state in the catalog has four cells inside a tight
/// bounding box and carries the color of its kind, and each kind has the
/// number of states that its symmetry leaves distinct.
pub proof fn lemma_catalog_shapes(kind: PieceKind, i: int)
    requires
        0 <= i < kind.shapes().len(),
    ensures
        kind.shapes().len() == kind.rotations(),
        kind.shapes()[i].well_formed(),
        kind.shapes()[i].tight(),
        kind.shapes()[i].color == kind.color(),
        catalog()[kind.index()] == kind.shapes(),
{
    let s = kind.shapes()[i];
    assert(s.vertices.len() == 4);
    assert(s.vertices[0].0 + 1 == s.width || s.vertices[1].0 + 1 == s.width || s.vertices[2].0 + 1
        == s.width || s.vertices[3].0 + 1 == s.width);
    assert(s.vertices[0].1 + 1 == s.height || s.vertices[1].1 + 1 == s.height || s.vertices[2].1
        + 1 == s.height || s.vertices[3].1 + 1 == s.height);
}

/// Rotating as many times as a piece has rotation states brings back the
/// state it started from, and the whole cycle with it.
pub proof fn lemma_rotation_is_cyclic(shapes: Seq<Shape>)
    ensures
        rotated_by(shapes, shapes.len()) == shapes,
{
    lemma_rotated_by(shapes, shapes.len());
    assert(cycle_from(shapes, shapes.len() as int) =~= shapes);
}

/// Rotating `n` times, for `n` up to the length of the cycle, reads the
/// cycle from position `n`.
pub proof fn lemma_rotated_by(shapes: Seq<Shape>, n: nat)
    requires
        n <= shapes.len(),
    ensures
        rotated_by(shapes, n) == cycle_from(shapes, n as int),
    decreases n,
{
    if n == 0 {
        assert(cycle_from(shapes, 0) =~= shapes);
    } else {
        lemma_rotated_by(shapes, (n - 1) as nat);
        assert(rotated(cycle_from(shapes, n - 1)) =~= cycle_from(shapes, n as int));
    }
}

fn representation(
    a: (u32, u32),
    b: (u32, u32),
    c: (u32, u32),
    d: (u32, u32),
    width: u32,
    height: u32,
    color: u32,
) -> (r: Representation)
    ensures
        r@ == shape(a, b, c, d, width, height, color),
{
    let mut vertices: Vec<(u32, u32)> = Vec::with_capacity(4);
    vertices.push(a);
    vertices.push(b);
    vertices.push(c);
    vertices.push(d);
    assert(vertices@ =~= seq![a, b, c, d]);
    Representation { vertices, width, height, color }
}

/// `rand::Rng::gen_range` on the generator that `rand::thread_rng` hands out,
/// asked for a value of the half-open range from 0 to `bound`. The range must
/// not be empty. All that is claimed of the draw is that it lies in the range.
#[verifier::external_body]
fn random_below(bound: usize) -> (index: usize)
    requires
        bound > 0,
    ensures
        index < bound,
{
    rand::thread_rng().gen_range(0..bound)
}

/// The catalog of the seven kinds, built once and handed out by copy.
pub struct TetrominoGenertor {
    cache: Vec<Tetromino>,
}

impl TetrominoGenertor {
    #[verifier::type_invariant]
    spec fn holds_catalog(self) -> bool {
        &&& self.cache@.len() == 7
        &&& forall|k: int| 0 <= k < 7 ==> (#[trigger] self.cache@[k])@ == PieceKind::at(k).shapes()
    }

    /// The pieces held, by position.
    pub closed spec fn pieces(&self) -> Seq<Seq<Shape>> {
        Seq::new(self.cache@.len(), |k: int| self.cache@[k]@)
    }

    /// The catalog, each piece in its first rotation state.
    pub fn new() -> (generator: Self)
        ensures
            generator.pieces() == catalog(),
    {
        let mut tetrominos: Vec<Tetromino> = Vec::with_capacity(7);

        // I
        let mut representations: Vec<Representation> = Vec::new();
        representations.push(representation((0, 0), (0, 1), (0, 2), (0, 3), 1, 4, 0xFF00F0F0));
        representations.push(representation((0, 0), (1, 0), (2, 0), (3, 0), 4, 1, 0xFF00F0F0));
        assert(shapes_of(representations@) =~= PieceKind::I.shapes());
        tetrominos.push(Tetromino::new(representations));
        // O
        let mut representations: Vec<Representation> = Vec::new();
        representations.push(representation((0, 0), (1, 0), (0, 1), (1, 1), 2, 2, 0xF0F000));
        assert(shapes_of(representations@) =~= PieceKind::O.shapes());
        tetrominos.push(Tetromino::new(representations));
        // J
        let mut representations: Vec<Representation> = Vec::new();
        representations.push(representation((1, 0), (1, 1), (0, 2), (1, 2), 2, 3, 0xFF0000F0));
        representations.push(representation((0, 0), (0, 1), (1, 1), (2, 1), 3, 2, 0xFF0000F0));
        representations.push(representation((0, 0), (1, 0), (0, 1), (0, 2), 2, 3, 0xFF0000F0));
        representations.push(representation((0, 0), (1, 0), (2, 0), (2, 1), 3, 2, 0xFF0000F0));
        assert(shapes_of(representations@) =~= PieceKind::J.shapes());
        tetrominos.push(Tetromino::new(representations));
        // L
        let mut representations: Vec<Representation> = Vec::new();
        representations.push(representation((0, 0), (0, 1), (0, 2), (1, 2), 2, 3, 0xFFF0A000));
        representations.push(representation((0, 0), (1, 0), (2, 0), (0, 1), 3, 2, 0xFFF0A000));
        representations.push(representation((0, 0), (1, 0), (1, 1), (1, 2), 2, 3, 0xFFF0A000));
        representations.push(representation((0, 1), (1, 1), (2, 1), (2, 0), 3, 2, 0xFFF0A000));
        assert(shapes_of(representations@) =~= PieceKind::L.shapes());
        tetrominos.push(Tetromino::new(representations));
        // S
        let mut representations: Vec<Representation> = Vec::new();
        representations.push(representation((1, 0), (2, 0), (0, 1), (1, 1), 3, 2, 0xFF00F000));
        representations.push(representation((0, 0), (0, 1), (1, 1), (1, 2), 2, 3, 0xFF00F000));
        assert(shapes_of(representations@) =~= PieceKind::S.shapes());
        tetrominos.push(Tetromino::new(representations));
        // Z
        let mut representations: Vec<Representation> = Vec::new();
        representations.push(representation((0, 0), (1, 0), (1, 1), (2, 1), 3, 2, 0xFFF00000));
        representations.push(representation((1, 0), (1, 1), (0, 1), (0, 2), 2, 3, 0xFFF00000));
        assert(shapes_of(representations@) =~= PieceKind::Z.shapes());
        tetrominos.push(Tetromino::new(representations));
        // T
        let mut representations: Vec<Representation> = Vec::new();
        representations.push(representation((0, 0), (1, 0), (2, 0), (1, 1), 3, 2, 0xFFA000F0));
        representations.push(representation((1, 0), (1, 1), (1, 2), (0, 1), 2, 3, 0xFFA000F0));
        representations.push(representation((0, 1), (1, 1), (2, 1), (1, 0), 3, 2, 0xFFA000F0));
        representations.push(representation((0, 0), (0, 1), (0, 2), (1, 1), 2, 3, 0xFFA000F0));
        assert(shapes_of(representations@) =~= PieceKind::T.shapes());
        tetrominos.push(Tetromino::new(representations));

        let generator = TetrominoGenertor { cache: tetrominos };
        assert(generator.pieces() =~= catalog());
        generator
    }

    /// A fresh piece of the given kind, in its first rotation state.
    pub fn get_tetromino(&self, kind: PieceKind) -> (piece: Tetromino)
        ensures
            piece@ == kind.shapes(),
            piece@ == self.pieces()[kind.index()],
    {
        proof {
            use_type_invariant(self);
        }
        self.cache[kind.to_index()].clone()
    }

    /// A fresh piece of a kind drawn at random, each draw independent of the
    /// ones before it.
    pub fn get_random_tetromino(&self) -> (piece: Tetromino)
        ensures
            exists|kind: PieceKind| piece@ == #[trigger] kind.shapes(),
    {
        proof {
            use_type_invariant(self);
        }
        let index: usize = random_below(self.cache.len());
        self.get_tetromino(PieceKind::from_index(index))
    }
}

} // verus!
