//! The frame buffer: blocks tinted from a template and glyphs cut from a
//! sheet, copied into a buffer of pixels at grid positions.

use std::collections::HashMap;
use vstd::arithmetic::div_mod::{
    lemma_fundamental_div_mod, lemma_fundamental_div_mod_converse,
};
use vstd::prelude::*;

verus! {

/// The color that an empty buffer is filled with.
pub const CLEAR_COLOR: u32 = 0x1D1D1D;

/// Side of a block or a glyph, in pixels.
pub const BLOCK_SIZE: usize = 16;

/// Pixels of a block or a glyph.
pub const BLOCK_PIXELS: usize = 256;

/// One 8-bit channel of a pixel: the red one at `shift` 16, the green one at
/// 8, the blue one at 0.
pub open spec fn channel(pixel: u32, shift: u32) -> u32 {
    (pixel >> shift) & 0xFF
}

/// The pixel made of three channels.
pub open spec fn pixel_of(red: u32, green: u32, blue: u32) -> u32 {
    red << 16 | green << 8 | blue
}

/// A channel of a color scaled by the same channel of a template pixel, read
/// as a brightness between 0 and 255, rounded down.
pub open spec fn scaled(color: u32, pixel: u32, shift: u32) -> u32 {
    (channel(color, shift) * channel(pixel, shift) / 255) as u32
}

/// A template pixel tinted with a color, channel by channel.
pub open spec fn tinted_pixel(pixel: u32, color: u32) -> u32 {
    pixel_of(scaled(color, pixel, 16), scaled(color, pixel, 8), scaled(color, pixel, 0))
}

/// A template tinted with a color, pixel by pixel.
pub open spec fn tinted(template: Seq<u32>, color: u32) -> Seq<u32> {
    Seq::new(template.len(), |i: int| tinted_pixel(template[i], color))
}

/// A channel is at most 255, and so is a channel scaled by another.
pub proof fn lemma_scaled_is_a_channel(color: u32, pixel: u32, shift: u32)
    requires
        shift < 32,
    ensures
        channel(color, shift) <= 255,
        scaled(color, pixel, shift) <= 255,
        scaled(color, pixel, shift) == channel(color, shift) * channel(pixel, shift) / 255,
{
    let a = channel(color, shift);
    let b = channel(pixel, shift);
    assert(a <= 255) by (bit_vector)
        requires
            a == (color >> shift) & 0xFF,
    ;
    assert(b <= 255) by (bit_vector)
        requires
            b == (pixel >> shift) & 0xFF,
    ;
    assert(0 <= a * b <= 255 * 255) by (nonlinear_arith)
        requires
            0 <= a <= 255,
            0 <= b <= 255,
    ;
}

fn tint_channel(color: u32, pixel: u32, shift: u32) -> (value: u32)
    requires
        shift < 32,
    ensures
        value == scaled(color, pixel, shift),
        value <= 255,
{
    proof {
        lemma_scaled_is_a_channel(color, pixel, shift);
    }
    let brightness: u32 = (pixel >> shift) & 0xFF;
    let channel: u32 = (color >> shift) & 0xFF;
    channel * brightness / 255
}

/// Whether the pixel at index `k` of a buffer of the given width lies in the
/// square of 16 by 16 pixels whose top left corner is at (`left`, `top`).
pub open spec fn in_block(width: int, left: int, top: int, k: int) -> bool {
    top <= k / width < top + BLOCK_SIZE && left <= k % width < left + BLOCK_SIZE
}

/// The index within the square, row by row, of the pixel at index `k` of the
/// buffer.
pub open spec fn block_index(width: int, left: int, top: int, k: int) -> int {
    BLOCK_SIZE * (k / width - top) + (k % width - left)
}

/// The buffer after the first `done` pixels of a square were copied to
/// (`left`, `top`).
pub open spec fn blit_prefix(
    buffer: Seq<u32>,
    width: int,
    left: int,
    top: int,
    pixels: Seq<u32>,
    done: int,
) -> Seq<u32> {
    Seq::new(
        buffer.len(),
        |k: int|
            if in_block(width, left, top, k) && block_index(width, left, top, k) < done {
                pixels[block_index(width, left, top, k)]
            } else {
                buffer[k]
            },
    )
}

/// The buffer after a square of 16 by 16 pixels was copied to (`left`,
/// `top`): inside the square the pixels of the square, outside it the buffer
/// as it was.
pub open spec fn blit(buffer: Seq<u32>, width: int, left: int, top: int, pixels: Seq<u32>) -> Seq<
    u32,
> {
    Seq::new(
        buffer.len(),
        |k: int|
            if in_block(width, left, top, k) {
                pixels[block_index(width, left, top, k)]
            } else {
                buffer[k]
            },
    )
}

proof fn lemma_blit_step(
    buffer: Seq<u32>,
    width: int,
    left: int,
    top: int,
    pixels: Seq<u32>,
    h: int,
    w: int,
)
    requires
        0 <= h < BLOCK_SIZE,
        0 <= w < BLOCK_SIZE,
        0 <= left,
        0 <= top,
        left + BLOCK_SIZE <= width,
        width * (top + BLOCK_SIZE) <= buffer.len(),
    ensures
        0 <= width * (top + h) + (left + w) < buffer.len(),
        blit_prefix(buffer, width, left, top, pixels, BLOCK_SIZE * h + w).update(
            width * (top + h) + (left + w),
            pixels[BLOCK_SIZE * h + w],
        ) == blit_prefix(buffer, width, left, top, pixels, BLOCK_SIZE * h + w + 1),
{
    let at = width * (top + h) + (left + w);
    assert(0 <= width * (top + h) && width * (top + h) + width <= width * (top + BLOCK_SIZE))
        by (nonlinear_arith)
        requires
            0 <= h < BLOCK_SIZE,
            0 <= top,
            0 < width,
    ;
    assert(at == (top + h) * width + (left + w)) by (nonlinear_arith)
        requires
            at == width * (top + h) + (left + w),
    ;
    lemma_fundamental_div_mod_converse(at, width, top + h, left + w);
    let before = blit_prefix(buffer, width, left, top, pixels, BLOCK_SIZE * h + w);
    let after = blit_prefix(buffer, width, left, top, pixels, BLOCK_SIZE * h + w + 1);
    let pixel = pixels[BLOCK_SIZE * h + w];
    assert(in_block(width, left, top, at));
    assert(block_index(width, left, top, at) == BLOCK_SIZE * h + w);
    assert forall|k: int| 0 <= k < buffer.len() implies #[trigger] before.update(at, pixel)[k]
        == after[k] by {
        if k != at && in_block(width, left, top, k) {
            lemma_fundamental_div_mod(k, width);
            lemma_fundamental_div_mod(at, width);
            let r = k / width;
            let c = k % width;
            if block_index(width, left, top, k) == BLOCK_SIZE * h + w {
                assert(r - top == h && c - left == w);
                assert(r == at / width && c == at % width);
                assert(k == at);
            }
        }
    }
    assert(before.update(at, pixel) =~= after);
}

fn copy_block(buffer: &mut Vec<u32>, width: usize, left: usize, top: usize, pixels: &Vec<u32>)
    requires
        pixels@.len() == BLOCK_PIXELS,
        left + BLOCK_SIZE <= width,
        width * (top + BLOCK_SIZE) <= old(buffer)@.len(),
    ensures
        final(buffer)@ == blit(old(buffer)@, width as int, left as int, top as int, pixels@),
{
    let ghost start = buffer@;
    assert(buffer@ =~= blit_prefix(start, width as int, left as int, top as int, pixels@, 0));
    let mut h: usize = 0;
    while h < BLOCK_SIZE
        invariant
            h <= BLOCK_SIZE,
            pixels@.len() == BLOCK_PIXELS,
            left + BLOCK_SIZE <= width,
            width * (top + BLOCK_SIZE) <= start.len(),
            buffer@ == blit_prefix(
                start,
                width as int,
                left as int,
                top as int,
                pixels@,
                BLOCK_SIZE * h,
            ),
        decreases BLOCK_SIZE - h,
    {
        let mut w: usize = 0;
        while w < BLOCK_SIZE
            invariant
                h < BLOCK_SIZE,
                w <= BLOCK_SIZE,
                pixels@.len() == BLOCK_PIXELS,
                left + BLOCK_SIZE <= width,
                width * (top + BLOCK_SIZE) <= start.len(),
                buffer@ == blit_prefix(
                    start,
                    width as int,
                    left as int,
                    top as int,
                    pixels@,
                    BLOCK_SIZE * h + w,
                ),
            decreases BLOCK_SIZE - w,
        {
            proof {
                lemma_blit_step(
                    start,
                    width as int,
                    left as int,
                    top as int,
                    pixels@,
                    h as int,
                    w as int,
                );
                assert(start.len() == buffer.len() <= usize::MAX);
                assert(top + BLOCK_SIZE <= width * (top + BLOCK_SIZE) && 0 <= width * (top + h)
                    <= width * (top + BLOCK_SIZE)) by (nonlinear_arith)
                    requires
                        0 < width,
                        0 <= top,
                        0 <= h < BLOCK_SIZE,
                ;
            }
            let src_index: usize = BLOCK_SIZE * h + w;
            let dst_index: usize = width * (top + h) + (left + w);
            buffer.set(dst_index, pixels[src_index]);
            w += 1;
        }
        h += 1;
    }
    assert(buffer@ =~= blit(start, width as int, left as int, top as int, pixels@)) by {
        assert forall|k: int| 0 <= k < start.len() && in_block(
            width as int,
            left as int,
            top as int,
            k,
        ) implies block_index(width as int, left as int, top as int, k) < BLOCK_PIXELS by {}
    }
}

/// Tinted blocks, made from one template and kept by color once made.
pub struct BlockFactory {
    cache: HashMap<u32, Vec<u32>>,
    block_template: Vec<u32>,
}

impl BlockFactory {
    /// The template has the size of a block, and every block kept is the
    /// template tinted with the color it is kept under.
    pub closed spec fn wf(&self) -> bool {
        &&& self.block_template@.len() == BLOCK_PIXELS
        &&& forall|color: u32| #[trigger]
            self.cache@.contains_key(color) ==> self.cache@[color]@ == tinted(
                self.block_template@,
                color,
            )
    }

    /// The template that blocks are tinted from.
    pub closed spec fn template(&self) -> Seq<u32> {
        self.block_template@
    }

    /// A factory for the template, a block of 16 by 16 pixels, with no block
    /// made yet.
    pub fn new(template: Vec<u32>) -> (factory: Self)
        requires
            template@.len() == BLOCK_PIXELS,
        ensures
            factory.wf(),
            factory.template() == template@,
    {
        BlockFactory { cache: HashMap::new(), block_template: template }
    }

    /// The template tinted with the color.
    pub fn create_colored_block(&self, color: u32) -> (block: Vec<u32>)
        ensures
            block@ == tinted(self.template(), color),
    {
        let n: usize = self.block_template.len();
        let mut new_block: Vec<u32> = Vec::with_capacity(n);
        let mut i: usize = 0;
        while i < n
            invariant
                n == self.block_template@.len(),
                i <= n,
                new_block@ == tinted(self.block_template@, color).subrange(0, i as int),
            decreases n - i,
        {
            let pixel: u32 = self.block_template[i];
            let red: u32 = tint_channel(color, pixel, 16);
            let green: u32 = tint_channel(color, pixel, 8);
            let blue: u32 = tint_channel(color, pixel, 0);
            new_block.push(red << 16 | green << 8 | blue);
            i += 1;
            assert(new_block@ =~= tinted(self.block_template@, color).subrange(0, i as int));
        }
        assert(new_block@ =~= tinted(self.block_template@, color));
        new_block
    }

    /// The block of the color, made on first use.
    pub fn get_block(&mut self, color: u32) -> (block: Option<&Vec<u32>>)
        requires
            old(self).wf(),
        ensures
            final(self).wf(),
            final(self).template() == old(self).template(),
            block matches Some(pixels) && pixels@ == tinted(old(self).template(), color),
    {
        if !self.cache.contains_key(&color) {
            let new_block = self.create_colored_block(color);
            self.cache.insert(color, new_block);
        }
        self.cache.get(&color)
    }
}

/// Width of the glyph sheet, in pixels.
pub const GLYPHS_WIDTH: usize = 64;

/// Height of the glyph sheet, in pixels.
pub const GLYPHS_HEIGHT: usize = 80;

/// Pixels of the glyph sheet.
pub const GLYPHS_PIXELS: usize = 5120;

/// The characters that have a glyph, in the order in which the sheet holds
/// them, row by row, four to a row.
pub open spec fn glyph_keys() -> Seq<char> {
    seq![
        '1', '2', '3', '4', '5', '6', '7', '8', '9', '0', 'T', 'I', 'S', 'C', 'O', 'R', 'E', 'N',
        'X', '!',
    ]
}

/// The glyph at a position of the sheet, row by row.
pub open spec fn glyph_at(sheet: Seq<u32>, index: int) -> Seq<u32> {
    Seq::new(
        BLOCK_PIXELS as nat,
        |k: int|
            sheet[GLYPHS_WIDTH * (k / 16 + BLOCK_SIZE * (index / 4)) + (k % 16 + BLOCK_SIZE * (index
                % 4))],
    )
}

/// The glyphs that a sheet holds, by character.
pub open spec fn glyphs_of(sheet: Seq<u32>) -> Map<char, Seq<u32>> {
    Map::new(
        |c: char| glyph_keys().contains(c),
        |c: char| glyph_at(sheet, glyph_keys().index_of(c)),
    )
}

/// No character occurs twice among those that have a glyph.
pub proof fn lemma_glyph_keys_are_distinct()
    ensures
        glyph_keys().len() == 20,
        forall|i: int, j: int|
            0 <= i < 20 && 0 <= j < 20 && i != j ==> #[trigger] glyph_keys()[i]
                != #[trigger] glyph_keys()[j],
        forall|i: int| 0 <= i < 20 ==> glyph_keys().index_of(#[trigger] glyph_keys()[i]) == i,
{
    let keys = glyph_keys();
    assert(keys.len() == 20);
    assert forall|i: int, j: int| 0 <= i < 20 && 0 <= j < 20 && i != j implies #[trigger] keys[i]
        != #[trigger] keys[j] by {
        assert(keys[0] == '1' && keys[1] == '2' && keys[2] == '3' && keys[3] == '4' && keys[4]
            == '5');
        assert(keys[5] == '6' && keys[6] == '7' && keys[7] == '8' && keys[8] == '9' && keys[9]
            == '0');
        assert(keys[10] == 'T' && keys[11] == 'I' && keys[12] == 'S' && keys[13] == 'C'
            && keys[14] == 'O');
        assert(keys[15] == 'R' && keys[16] == 'E' && keys[17] == 'N' && keys[18] == 'X'
            && keys[19] == '!');
    }
    assert forall|i: int| 0 <= i < 20 implies keys.index_of(#[trigger] keys[i]) == i by {
        let j = keys.index_of(keys[i]);
        assert(0 <= j < keys.len() && keys[j] == keys[i]);
    }
}

/// Two characters with the same code point are the same character.
pub proof fn lemma_code_point_is_injective(a: char, b: char)
    requires
        a as u32 == b as u32,
    ensures
        a == b,
{
}

/// The glyphs cut from a sheet, kept by character.
pub struct GlyphCache {
    // Keyed by the character's code point.
    cache: HashMap<u32, Vec<u32>>,
}

impl GlyphCache {
    /// The glyphs held, by character.
    pub closed spec fn glyphs(&self) -> Map<char, Seq<u32>> {
        Map::new(|c: char| self.cache@.contains_key(c as u32), |c: char| self.cache@[c as u32]@)
    }

    /// Cuts the twenty glyphs out of a sheet of 64 by 80 pixels.
    pub fn new(glyphs: Vec<u32>) -> (cache: Self)
        requires
            glyphs@.len() == GLYPHS_PIXELS,
        ensures
            cache.glyphs() == glyphs_of(glyphs@),
    {
        let keys: [char; 20] = [
            '1',
            '2',
            '3',
            '4',
            '5',
            '6',
            '7',
            '8',
            '9',
            '0',
            'T',
            'I',
            'S',
            'C',
            'O',
            'R',
            'E',
            'N',
            'X',
            '!',
        ];
        assert(keys@ =~= glyph_keys());
        proof {
            lemma_glyph_keys_are_distinct();
        }
        let mut cache: HashMap<u32, Vec<u32>> = HashMap::with_capacity(keys.len());
        let mut i: usize = 0;
        while i < 20
            invariant
                i <= 20,
                glyphs@.len() == GLYPHS_PIXELS,
                keys@ == glyph_keys(),
                forall|code: u32| #[trigger]
                    cache@.contains_key(code) <==> exists|j: int|
                        0 <= j < i && #[trigger] glyph_keys()[j] as u32 == code,
                forall|j: int|
                    0 <= j < i ==> (#[trigger] cache@[glyph_keys()[j] as u32])@ == glyph_at(
                        glyphs@,
                        j,
                    ),
            decreases 20 - i,
        {
            let y: usize = i / (GLYPHS_WIDTH / BLOCK_SIZE);
            let x: usize = i % (GLYPHS_WIDTH / BLOCK_SIZE);
            let mut glyph: Vec<u32> = Vec::with_capacity(BLOCK_PIXELS);
            let mut h: usize = 0;
            while h < BLOCK_SIZE
                invariant
                    h <= BLOCK_SIZE,
                    i < 20,
                    y == i / 4,
                    x == i % 4,
                    glyphs@.len() == GLYPHS_PIXELS,
                    glyph@ == glyph_at(glyphs@, i as int).subrange(0, BLOCK_SIZE * h),
                decreases BLOCK_SIZE - h,
            {
                let mut w: usize = 0;
                while w < BLOCK_SIZE
                    invariant
                        h < BLOCK_SIZE,
                        w <= BLOCK_SIZE,
                        i < 20,
                        y == i / 4,
                        x == i % 4,
                        glyphs@.len() == GLYPHS_PIXELS,
                        glyph@ == glyph_at(glyphs@, i as int).subrange(0, BLOCK_SIZE * h + w),
                    decreases BLOCK_SIZE - w,
                {
                    let src_index: usize = GLYPHS_WIDTH * (h + y * BLOCK_SIZE) + (w + x
                        * BLOCK_SIZE);
                    glyph.push(glyphs[src_index]);
                    w += 1;
                    assert(glyph@ =~= glyph_at(glyphs@, i as int).subrange(0, BLOCK_SIZE * h + w));
                }
                h += 1;
            }
            assert(glyph@ =~= glyph_at(glyphs@, i as int));
            let ghost earlier = cache@;
            cache.insert(keys[i] as u32, glyph);
            proof {
                assert forall|j: int| 0 <= j < i + 1 implies (#[trigger] cache@[glyph_keys()[j]
                    as u32])@ == glyph_at(glyphs@, j) by {
                    if j < i {
                        assert(glyph_keys()[j] != glyph_keys()[i as int]);
                        assert(earlier.contains_key(glyph_keys()[j] as u32));
                    }
                }
            }
            i += 1;
        }
        let made = GlyphCache { cache };
        proof {
            assert forall|c: char| #[trigger]
                made.glyphs().contains_key(c) == glyphs_of(glyphs@).contains_key(c) by {
                if made.glyphs().contains_key(c) {
                    let j = choose|j: int|
                        0 <= j < 20 && #[trigger] glyph_keys()[j] as u32 == c as u32;
                    lemma_code_point_is_injective(glyph_keys()[j], c);
                }
                if glyph_keys().contains(c) {
                    let j = choose|j: int| 0 <= j < 20 && glyph_keys()[j] == c;
                    assert(glyph_keys()[j] as u32 == c as u32);
                }
            }
            assert forall|c: char| #[trigger] made.glyphs().contains_key(c) implies made.glyphs()[c]
                == glyphs_of(glyphs@)[c] by {
                let j = choose|j: int|
                    0 <= j < 20 && #[trigger] glyph_keys()[j] as u32 == c as u32;
                lemma_code_point_is_injective(glyph_keys()[j], c);
                assert(glyph_keys().index_of(c) == j);
            }
            assert(made.glyphs() =~= glyphs_of(glyphs@));
        }
        made
    }

    /// The glyph of a character, if it has one.
    pub fn get_glyph(&self, key: &char) -> (glyph: Option<&Vec<u32>>)
        ensures
            glyph is Some <==> self.glyphs().contains_key(*key),
            glyph matches Some(pixels) ==> pixels@ == self.glyphs()[*key],
    {
        let code: u32 = *key as u32;
        self.cache.get(&code)
    }
}

/// A block to draw: its color and the cell of the grid it goes to.
pub struct Cell {
    pub color: u32,
    pub x: int,
    pub y: int,
}

/// The mathematical value of a display.
pub struct DisplayView {
    /// Size of the buffer, in pixels.
    pub width: int,
    pub height: int,
    /// Size of the screen grid, in cells of `pixel_size` pixels.
    pub virtual_width: int,
    pub virtual_height: int,
    pub pixel_size: int,
    /// The pixels, row by row.
    pub buffer: Seq<u32>,
    /// The template that blocks are tinted from.
    pub template: Seq<u32>,
    /// The glyphs, by character.
    pub glyphs: Map<char, Seq<u32>>,
}

impl DisplayView {
    /// The grid is the buffer divided into cells, the buffer holds one pixel
    /// for each position, the template and the glyphs have the size of a
    /// block, and there is a glyph for each of the twenty characters and for
    /// no other.
    pub open spec fn well_formed(self) -> bool {
        &&& self.pixel_size > 0
        &&& self.width >= 0
        &&& self.height >= 0
        &&& self.virtual_width == self.width / self.pixel_size
        &&& self.virtual_height == self.height / self.pixel_size
        &&& self.buffer.len() == self.width * self.height
        &&& self.template.len() == BLOCK_PIXELS
        &&& forall|c: char| #[trigger] self.glyphs.contains_key(c) <==> glyph_keys().contains(c)
        &&& forall|c: char| #[trigger]
            self.glyphs.contains_key(c) ==> self.glyphs[c].len() == BLOCK_PIXELS
    }

    /// A block whose top left corner is at the cell (`x`, `y`) lies inside
    /// the grid, with room to spare.
    pub open spec fn block_fits(self, x: int, y: int) -> bool {
        &&& 0 <= x && 0 <= y
        &&& x + BLOCK_SIZE as int / self.pixel_size < self.virtual_width
        &&& y + BLOCK_SIZE as int / self.pixel_size < self.virtual_height
    }

    /// The display after a square of pixels was copied to the cell (`x`, `y`).
    pub open spec fn with_pixels(self, pixels: Seq<u32>, x: int, y: int) -> DisplayView {
        DisplayView {
            buffer: blit(self.buffer, self.width, x * self.pixel_size, y * self.pixel_size, pixels),
            ..self
        }
    }

    /// The display after a block of the color was drawn at the cell (`x`, `y`).
    pub open spec fn with_block(self, color: u32, x: int, y: int) -> DisplayView {
        self.with_pixels(tinted(self.template, color), x, y)
    }

    /// Each of the cells lies inside the grid, at coordinates that the
    /// machine can hold.
    pub open spec fn cells_fit(self, cells: Seq<Cell>) -> bool {
        forall|i: int|
            0 <= i < cells.len() ==> {
                &&& (#[trigger] cells[i]).x <= u32::MAX
                &&& cells[i].y <= u32::MAX
                &&& self.block_fits(cells[i].x, cells[i].y)
            }
    }

    /// The display after a block was drawn at each of the cells, in their
    /// order.
    pub open spec fn with_cells(self, cells: Seq<Cell>) -> DisplayView
        decreases cells.len(),
    {
        if cells.len() == 0 {
            self
        } else {
            self.with_cells(cells.drop_last()).with_block(
                cells.last().color,
                cells.last().x,
                cells.last().y,
            )
        }
    }

    /// The same grid over the same buffer size, drawing from the same
    /// template and glyphs: all but the pixels agree.
    pub open spec fn same_canvas(self, other: DisplayView) -> bool {
        &&& self.width == other.width
        &&& self.height == other.height
        &&& self.virtual_width == other.virtual_width
        &&& self.virtual_height == other.virtual_height
        &&& self.pixel_size == other.pixel_size
        &&& self.buffer.len() == other.buffer.len()
        &&& self.template == other.template
        &&& self.glyphs == other.glyphs
    }

    /// Every character has a glyph, and the glyphs, one cell each from
    /// (`x`, `y`) rightwards, lie inside the grid.
    pub open spec fn text_fits(self, x: int, y: int, text: Seq<char>) -> bool {
        &&& forall|i: int| 0 <= i < text.len() ==> self.glyphs.contains_key(#[trigger] text[i])
        &&& text.len() > 0 ==> self.block_fits(x + text.len() - 1, y)
    }

    /// The display after the glyphs of the characters were drawn, one cell
    /// each from (`x`, `y`) rightwards.
    pub open spec fn with_text(self, x: int, y: int, text: Seq<char>) -> DisplayView
        decreases text.len(),
    {
        if text.len() == 0 {
            self
        } else {
            self.with_text(x, y, text.drop_last()).with_pixels(
                self.glyphs[text.last()],
                x + text.len() - 1,
                y,
            )
        }
    }

    /// The display with every pixel set to the clear color.
    pub open spec fn cleared(self) -> DisplayView {
        DisplayView { buffer: Seq::new(self.buffer.len(), |i: int| CLEAR_COLOR), ..self }
    }
}

/// A block that fits the grid lies inside the buffer, pixel for pixel.
pub proof fn lemma_block_lies_in_buffer(view: DisplayView, x: int, y: int)
    requires
        view.well_formed(),
        view.block_fits(x, y),
    ensures
        0 <= x * view.pixel_size,
        0 <= y * view.pixel_size,
        x * view.pixel_size + BLOCK_SIZE <= view.width,
        y * view.pixel_size + BLOCK_SIZE <= view.height,
        view.width * (y * view.pixel_size + BLOCK_SIZE) <= view.buffer.len(),
{
    let p = view.pixel_size;
    let side = BLOCK_SIZE as int;
    lemma_fundamental_div_mod(side, p);
    lemma_fundamental_div_mod(view.width, p);
    lemma_fundamental_div_mod(view.height, p);
    assert(p * (x + side / p + 1) <= p * (view.width / p) && p * (x + side / p + 1) == p * x + p * (
    side / p) + p && 0 <= x * p && x * p == p * x) by (nonlinear_arith)
        requires
            0 < p,
            0 <= x,
            x + side / p + 1 <= view.width / p,
    ;
    assert(p * (y + side / p + 1) <= p * (view.height / p) && p * (y + side / p + 1) == p * y + p
        * (side / p) + p && 0 <= y * p && y * p == p * y) by (nonlinear_arith)
        requires
            0 < p,
            0 <= y,
            y + side / p + 1 <= view.height / p,
    ;
    assert(view.width * (y * p + side) <= view.width * view.height) by (nonlinear_arith)
        requires
            0 <= view.width,
            y * p + side <= view.height,
    ;
}

/// Drawing cells changes pixels and nothing else.
pub proof fn lemma_with_cells_keeps_canvas(view: DisplayView, cells: Seq<Cell>)
    ensures
        view.with_cells(cells).same_canvas(view),
    decreases cells.len(),
{
    if cells.len() > 0 {
        lemma_with_cells_keeps_canvas(view, cells.drop_last());
    }
}

/// Drawing one list of cells and then another is drawing the two lists joined.
pub proof fn lemma_with_cells_joined(view: DisplayView, first: Seq<Cell>, second: Seq<Cell>)
    ensures
        view.with_cells(first + second) == view.with_cells(first).with_cells(second),
    decreases second.len(),
{
    if second.len() == 0 {
        assert(first + second =~= first);
    } else {
        lemma_with_cells_joined(view, first, second.drop_last());
        assert((first + second).drop_last() =~= first + second.drop_last());
        assert((first + second).last() == second.last());
    }
}

/// Drawing one more cell after a list is drawing the list with the cell at
/// its end.
pub proof fn lemma_with_cells_pushed(view: DisplayView, cells: Seq<Cell>, cell: Cell)
    ensures
        view.with_cells(cells.push(cell)) == view.with_cells(cells).with_block(
            cell.color,
            cell.x,
            cell.y,
        ),
{
    assert(cells.push(cell).drop_last() =~= cells);
}

/// Drawing text changes pixels and nothing else.
pub proof fn lemma_with_text_keeps_canvas(view: DisplayView, x: int, y: int, text: Seq<char>)
    ensures
        view.with_text(x, y, text).same_canvas(view),
    decreases text.len(),
{
    if text.len() > 0 {
        lemma_with_text_keeps_canvas(view, x, y, text.drop_last());
    }
}

/// Cells that fit, drawn one after the other: after the first `m` of them the
/// next one still fits, and drawing it gives what drawing the first `m + 1`
/// gives.
pub proof fn lemma_with_cells_next(view: DisplayView, cells: Seq<Cell>, m: int)
    requires
        0 <= m < cells.len(),
        view.cells_fit(cells),
    ensures
        view.with_cells(cells.subrange(0, m)).same_canvas(view),
        view.with_cells(cells.subrange(0, m)).block_fits(cells[m].x, cells[m].y),
        cells[m].x <= u32::MAX,
        cells[m].y <= u32::MAX,
        view.with_cells(cells.subrange(0, m)).with_block(cells[m].color, cells[m].x, cells[m].y)
            == view.with_cells(cells.subrange(0, m + 1)),
{
    lemma_with_cells_keeps_canvas(view, cells.subrange(0, m));
    lemma_with_cells_pushed(view, cells.subrange(0, m), cells[m]);
    assert(cells.subrange(0, m).push(cells[m]) =~= cells.subrange(0, m + 1));
}

/// Two lists of cells fit where each of them fits.
pub proof fn lemma_cells_fit_joined(view: DisplayView, first: Seq<Cell>, second: Seq<Cell>)
    ensures
        view.cells_fit(first + second) <==> view.cells_fit(first) && view.cells_fit(second),
{
    let both = first + second;
    if view.cells_fit(both) {
        assert forall|i: int| 0 <= i < first.len() implies {
            &&& (#[trigger] first[i]).x <= u32::MAX
            &&& first[i].y <= u32::MAX
            &&& view.block_fits(first[i].x, first[i].y)
        } by {
            assert(both[i] == first[i]);
        }
        assert forall|i: int| 0 <= i < second.len() implies {
            &&& (#[trigger] second[i]).x <= u32::MAX
            &&& second[i].y <= u32::MAX
            &&& view.block_fits(second[i].x, second[i].y)
        } by {
            assert(both[first.len() + i] == second[i]);
        }
    }
    if view.cells_fit(first) && view.cells_fit(second) {
        assert forall|i: int| 0 <= i < both.len() implies {
            &&& (#[trigger] both[i]).x <= u32::MAX
            &&& both[i].y <= u32::MAX
            &&& view.block_fits(both[i].x, both[i].y)
        } by {
            if i < first.len() {
                assert(both[i] == first[i]);
            } else {
                assert(both[i] == second[i - first.len()]);
            }
        }
    }
}

/// What `str::to_uppercase` makes of a text.
pub uninterp spec fn uppercase_of(text: Seq<char>) -> Seq<char>;

/// `str::to_uppercase` gives the text in upper case, by the rules of
/// Unicode, which may change the number of characters. The result is a
/// function of the text alone; it is given a name and not spelled out.
pub assume_specification[ str::to_uppercase ](text: &str) -> (upper: String)
    ensures
        upper@ == uppercase_of(text@),
;

/// The frame buffer with what it draws from.
pub struct Display {
    pub width: usize,
    pub height: usize,
    pub virtual_width: usize,
    pub virtual_height: usize,
    pub pixel_size: usize,
    pub buffer: Vec<u32>,
    block_factory: BlockFactory,
    glyph_cache: GlyphCache,
}

impl View for Display {
    type V = DisplayView;

    closed spec fn view(&self) -> DisplayView {
        DisplayView {
            width: self.width as int,
            height: self.height as int,
            virtual_width: self.virtual_width as int,
            virtual_height: self.virtual_height as int,
            pixel_size: self.pixel_size as int,
            buffer: self.buffer@,
            template: self.block_factory.template(),
            glyphs: self.glyph_cache.glyphs(),
        }
    }
}

impl Display {
    /// The blocks kept are the template tinted with their colors.
    pub closed spec fn blocks_wf(&self) -> bool {
        self.block_factory.wf()
    }

    /// The invariant of a display that can be drawn on.
    pub open spec fn wf(&self) -> bool {
        self@.well_formed() && self.blocks_wf()
    }

    /// A display over a buffer of `width` by `height` pixels, seen as a grid
    /// of cells of `pixel_size` pixels, that tints its blocks from a template
    /// of 16 by 16 pixels and cuts its glyphs out of a sheet of 64 by 80.
    pub fn new(
        width: usize,
        height: usize,
        pixel_size: usize,
        buffer: Vec<u32>,
        block_template: Vec<u32>,
        glyph_sheet: Vec<u32>,
    ) -> (display: Self)
        requires
            pixel_size > 0,
            block_template@.len() == BLOCK_PIXELS,
            glyph_sheet@.len() == GLYPHS_PIXELS,
        ensures
            display@ == (DisplayView {
                width: width as int,
                height: height as int,
                virtual_width: width as int / pixel_size as int,
                virtual_height: height as int / pixel_size as int,
                pixel_size: pixel_size as int,
                buffer: buffer@,
                template: block_template@,
                glyphs: glyphs_of(glyph_sheet@),
            }),
            display.wf() <==> buffer@.len() == width * height,
    {
        Display {
            width,
            height,
            virtual_width: width / pixel_size,
            virtual_height: height / pixel_size,
            pixel_size,
            buffer,
            block_factory: BlockFactory::new(block_template),
            glyph_cache: GlyphCache::new(glyph_sheet),
        }
    }

    /// Sets every pixel to the clear color.
    pub fn clear_buffer(&mut self)
        ensures
            final(self)@ == old(self)@.cleared(),
            old(self).wf() ==> final(self).wf(),
    {
        let n: usize = self.buffer.len();
        let mut i: usize = 0;
        while i < n
            invariant
                i <= n,
                n == self.buffer@.len(),
                n == old(self).buffer@.len(),
                self.width == old(self).width,
                self.height == old(self).height,
                self.virtual_width == old(self).virtual_width,
                self.virtual_height == old(self).virtual_height,
                self.pixel_size == old(self).pixel_size,
                self.block_factory == old(self).block_factory,
                self.glyph_cache == old(self).glyph_cache,
                forall|k: int| 0 <= k < i ==> self.buffer@[k] == CLEAR_COLOR,
            decreases n - i,
        {
            self.buffer.set(i, CLEAR_COLOR);
            i += 1;
        }
        assert(self.buffer@ =~= old(self)@.cleared().buffer);
    }

    /// Draws a block of the color at the cell (`x`, `y`) of the grid.
    pub fn draw_block(&mut self, color: u32, x: u32, y: u32)
        requires
            old(self).wf(),
            old(self)@.block_fits(x as int, y as int),
        ensures
            final(self).wf(),
            final(self)@ == old(self)@.with_block(color, x as int, y as int),
    {
        proof {
            lemma_block_lies_in_buffer(self@, x as int, y as int);
        }
        let left: usize = x as usize * self.pixel_size;
        let top: usize = y as usize * self.pixel_size;
        if let Some(block) = self.block_factory.get_block(color) {
            copy_block(&mut self.buffer, self.width, left, top, block);
        }
        assert(self@.glyphs == old(self)@.glyphs);
    }

    /// Whether a block can be drawn at the cell (`x`, `y`) of the grid.
    pub fn can_draw_block(&self, x: u32, y: u32) -> (fits: bool)
        requires
            self.wf(),
        ensures
            fits == self@.block_fits(x as int, y as int),
    {
        let reach: u128 = (BLOCK_SIZE / self.pixel_size) as u128;
        x as u128 + reach < self.virtual_width as u128 && y as u128 + reach
            < self.virtual_height as u128
    }

    /// Whether the text, as it stands, can be drawn from the cell (`x`, `y`)
    /// rightwards.
    pub fn can_draw_glyphs(&self, x: u32, y: u32, text: &str) -> (fits: bool)
        requires
            self.wf(),
        ensures
            fits == self@.text_fits(x as int, y as int, text@),
    {
        let n: usize = text.unicode_len();
        let mut i: usize = 0;
        while i < n
            invariant
                i <= n,
                n == text@.len(),
                forall|k: int| 0 <= k < i ==> self@.glyphs.contains_key(#[trigger] text@[k]),
            decreases n - i,
        {
            let c: char = text.get_char(i);
            if self.glyph_cache.get_glyph(&c).is_none() {
                return false;
            }
            i += 1;
        }
        if n == 0 {
            return true;
        }
        let reach: u128 = (BLOCK_SIZE / self.pixel_size) as u128;
        let last: u128 = x as u128 + n as u128 - 1;
        last + reach < self.virtual_width as u128 && y as u128 + reach < self.virtual_height as u128
    }

    /// Draws the glyphs of the text, as it stands, one cell each from
    /// (`x`, `y`) rightwards.
    pub fn draw_glyphs(&mut self, x: u32, y: u32, text: &str)
        requires
            old(self).wf(),
            old(self)@.text_fits(x as int, y as int, text@),
        ensures
            final(self).wf(),
            final(self)@ == old(self)@.with_text(x as int, y as int, text@),
    {
        let n: usize = text.unicode_len();
        let mut i: usize = 0;
        while i < n
            invariant
                i <= n,
                n == text@.len(),
                old(self)@.text_fits(x as int, y as int, text@),
                self.wf(),
                self@ == old(self)@.with_text(x as int, y as int, text@.subrange(0, i as int)),
                self@.glyphs == old(self)@.glyphs,
                self@.pixel_size == old(self)@.pixel_size,
                self@.virtual_width == old(self)@.virtual_width,
                self@.virtual_height == old(self)@.virtual_height,
            decreases n - i,
        {
            let c: char = text.get_char(i);
            proof {
                assert(self@.block_fits(x + i, y as int));
                lemma_block_lies_in_buffer(self@, x + i, y as int);
                assert(text@.subrange(0, i + 1).drop_last() =~= text@.subrange(0, i as int));
                assert(text@.subrange(0, i + 1).last() == c);
                assert(old(self)@.glyphs.contains_key(text@[i as int]));
            }
            let char_x: usize = x as usize + i;
            let left: usize = char_x * self.pixel_size;
            let top: usize = y as usize * self.pixel_size;
            if let Some(glyph) = self.glyph_cache.get_glyph(&c) {
                copy_block(&mut self.buffer, self.width, left, top, glyph);
            }
            i += 1;
        }
        assert(text@.subrange(0, n as int) =~= text@);
    }

    /// Draws the text in upper case, one glyph to a cell from (`x`, `y`)
    /// rightwards.
    pub fn draw_text(&mut self, x: u32, y: u32, text: String)
        requires
            old(self).wf(),
            old(self)@.text_fits(x as int, y as int, uppercase_of(text@)),
        ensures
            final(self).wf(),
            final(self)@ == old(self)@.with_text(x as int, y as int, uppercase_of(text@)),
    {
        let upper: String = text.as_str().to_uppercase();
        self.draw_glyphs(x, y, upper.as_str());
    }

    /// Draws the text in upper case where every character of it has a glyph
    /// and the glyphs fit the grid, and leaves the display as it is where
    /// not. Returns whether it drew.
    pub fn try_draw_text(&mut self, x: u32, y: u32, text: String) -> (drawn: bool)
        requires
            old(self).wf(),
        ensures
            final(self).wf(),
            drawn == old(self)@.text_fits(x as int, y as int, uppercase_of(text@)),
            final(self)@ == if drawn {
                old(self)@.with_text(x as int, y as int, uppercase_of(text@))
            } else {
                old(self)@
            },
    {
        let upper: String = text.as_str().to_uppercase();
        if self.can_draw_glyphs(x, y, upper.as_str()) {
            self.draw_text(x, y, text);
            true
        } else {
            false
        }
    }
}

} // verus!
