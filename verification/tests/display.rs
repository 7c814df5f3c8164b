use tetrust::display::{BlockFactory, Display, GlyphCache, CLEAR_COLOR};

fn gray_template() -> Vec<u32> {
    (0..256u32).map(|i| i << 16 | i << 8 | i).collect()
}

fn numbered_sheet() -> Vec<u32> {
    (0..64 * 80u32).collect()
}

fn display(width: usize, height: usize, pixel_size: usize) -> Display {
    let buffer = vec![0; width * height];
    Display::new(width, height, pixel_size, buffer, gray_template(), numbered_sheet())
}

#[test]
fn a_new_display_divides_the_buffer_into_cells() {
    let d = display(1024, 768, 16);
    assert_eq!(d.width, 1024);
    assert_eq!(d.height, 768);
    assert_eq!(d.pixel_size, 16);
    assert_eq!(d.virtual_width, 64);
    assert_eq!(d.virtual_height, 48);
    assert_eq!(d.buffer.len(), 1024 * 768);
    let odd = display(100, 50, 3);
    assert_eq!(odd.virtual_width, 33);
    assert_eq!(odd.virtual_height, 16);
}

#[test]
fn clear_buffer_fills_with_the_clear_color() {
    let mut d = display(64, 48, 16);
    d.draw_block(0xFFFFFF, 1, 1);
    d.clear_buffer();
    assert_eq!(CLEAR_COLOR, 0x1D1D1D);
    assert!(d.buffer.iter().all(|p| *p == 0x1D1D1D));
    assert_eq!(d.buffer.len(), 64 * 48);
}

#[test]
fn tinting_scales_each_channel_by_the_brightness_of_the_template() {
    let factory = BlockFactory::new(vec![0x0080_8080; 256]);
    let block = factory.create_colored_block(0xFF00F0F0);
    assert_eq!(block.len(), 256);
    assert!(block.iter().all(|p| *p == 0x0000_7878));
    let white = BlockFactory::new(vec![0x00FF_FFFF; 256]);
    assert!(white.create_colored_block(0xFFF0A000).iter().all(|p| *p == 0x00F0_A000));
    let mixed = BlockFactory::new(vec![0x0040_80C0; 256]);
    // 0x12 * 0x40 / 255 = 4, 0x34 * 0x80 / 255 = 26, 0x56 * 0xC0 / 255 = 64
    assert!(mixed.create_colored_block(0x0012_3456).iter().all(|p| *p == 0x0004_1A40));
}

#[test]
fn tinting_agrees_with_scaling_in_floating_point() {
    let factory = BlockFactory::new(gray_template());
    for c in 0..256u32 {
        let color = c << 16 | c << 8 | c;
        let block = factory.create_colored_block(color);
        for l in 0..256u32 {
            let brightness = l as f32 / 255.0;
            let channel = (c as f32 * brightness) as u32;
            assert_eq!(block[l as usize], channel << 16 | channel << 8 | channel);
        }
    }
}

#[test]
fn a_block_is_made_once_and_found_again() {
    let mut factory = BlockFactory::new(gray_template());
    let first = factory.get_block(0x00FF_0000).unwrap().clone();
    let again = factory.get_block(0x00FF_0000).unwrap().clone();
    assert_eq!(first, again);
    assert_eq!(first, factory.create_colored_block(0x00FF_0000));
    assert_eq!(first[255], 0x00FF_0000);
    assert_eq!(first[128], 0x0080_0000);
}

#[test]
fn draw_block_copies_the_tinted_block_to_its_cell() {
    let mut d = display(64, 48, 16);
    d.draw_block(0x00FF_FFFF, 2, 1);
    for k in 0..64 * 48 {
        let (row, col) = (k / 64, k % 64);
        if (16..32).contains(&row) && (32..48).contains(&col) {
            let i = (16 * (row - 16) + (col - 32)) as u32;
            assert_eq!(d.buffer[k], i << 16 | i << 8 | i);
        } else {
            assert_eq!(d.buffer[k], 0);
        }
    }
}

#[test]
fn draw_block_places_cells_by_the_pixel_size() {
    let mut d = display(100, 60, 4);
    d.draw_block(0x00FF_FFFF, 5, 3);
    // The block covers 16 pixels from (20, 12).
    assert_eq!(d.buffer[100 * 12 + 20], 0);
    assert_eq!(d.buffer[100 * 12 + 21], 0x0001_0101);
    assert_eq!(d.buffer[100 * 13 + 20], 0x0010_1010);
    assert_eq!(d.buffer[100 * 27 + 35], 0x00FF_FFFF);
    assert_eq!(d.buffer[100 * 28 + 35], 0);
    assert_eq!(d.buffer[100 * 27 + 36], 0);
    assert_eq!(d.buffer.iter().filter(|p| **p != 0).count(), 255);
}

#[test]
fn glyphs_are_cut_from_the_sheet_four_to_a_row() {
    let cache = GlyphCache::new(numbered_sheet());
    let one = cache.get_glyph(&'1').unwrap();
    assert_eq!(one.len(), 256);
    assert_eq!(one[0], 0);
    assert_eq!(one[15], 15);
    assert_eq!(one[16], 64);
    assert_eq!(one[255], 64 * 15 + 15);
    let two = cache.get_glyph(&'2').unwrap();
    assert_eq!(two[0], 16);
    assert_eq!(two[17], 64 + 17);
    let five = cache.get_glyph(&'5').unwrap();
    assert_eq!(five[0], 64 * 16);
    let bang = cache.get_glyph(&'!').unwrap();
    // The twentieth glyph: fifth row, fourth column.
    assert_eq!(bang[0], 64 * 64 + 48);
    assert_eq!(bang[255], 64 * 79 + 63);
}

#[test]
fn only_the_twenty_characters_have_glyphs() {
    let cache = GlyphCache::new(numbered_sheet());
    for c in "1234567890TISCORENX!".chars() {
        assert!(cache.get_glyph(&c).is_some());
    }
    for c in "ABDFGHJKLMPQUVWYZ tiscorenx-?".chars() {
        assert!(cache.get_glyph(&c).is_none());
    }
}

fn glyph_origin(c: char) -> u32 {
    let i = "1234567890TISCORENX!".chars().position(|k| k == c).unwrap() as u32;
    64 * 16 * (i / 4) + 16 * (i % 4)
}

#[test]
fn draw_text_writes_one_glyph_to_a_cell_in_upper_case() {
    let mut d = display(128, 48, 16);
    d.draw_text(2, 1, "next".to_string());
    for (i, c) in "NEXT".chars().enumerate() {
        let origin = glyph_origin(c);
        for h in 0..16usize {
            for w in 0..16usize {
                let got = d.buffer[128 * (16 + h) + 16 * (2 + i) + w];
                assert_eq!(got, origin + 64 * h as u32 + w as u32);
            }
        }
    }
    // Nothing is written outside the four cells.
    assert_eq!(d.buffer[128 * 16 + 31], 0);
    assert_eq!(d.buffer[128 * 16 + 96], 0);
    assert_eq!(d.buffer[128 * 15 + 32], 0);
    assert_eq!(d.buffer[128 * 32 + 32], 0);
}

#[test]
fn try_draw_text_draws_what_draw_text_draws() {
    let mut a = display(128, 48, 16);
    let mut b = display(128, 48, 16);
    a.draw_text(1, 0, "Score".to_string());
    assert!(b.try_draw_text(1, 0, "sCORE".to_string()));
    assert_eq!(a.buffer, b.buffer);
    assert!(a.buffer.iter().any(|p| *p != 0));
}

#[test]
fn try_draw_text_refuses_a_character_without_a_glyph() {
    let mut d = display(128, 48, 16);
    assert!(!d.try_draw_text(1, 0, "score-1".to_string()));
    assert!(!d.try_draw_text(1, 0, "a".to_string()));
    assert!(d.buffer.iter().all(|p| *p == 0));
}

#[test]
fn try_draw_text_refuses_text_that_leaves_the_grid() {
    // Eight cells to the row, three rows; a block needs a cell to spare.
    let mut d = display(128, 48, 16);
    assert!(d.try_draw_text(3, 1, "TEST".to_string()));
    assert!(!d.try_draw_text(4, 1, "TEST".to_string()));
    assert!(!d.try_draw_text(0, 2, "T".to_string()));
    assert!(d.try_draw_text(200, 40, String::new()));
}

#[test]
fn can_draw_glyphs_takes_the_text_as_it_stands() {
    let d = display(128, 48, 16);
    assert!(d.can_draw_glyphs(0, 0, "TETRIS!"));
    assert!(!d.can_draw_glyphs(0, 0, "tetris!"));
    assert!(!d.can_draw_glyphs(1, 0, "TETRIS!"));
    let mut e = display(128, 48, 16);
    e.draw_glyphs(0, 0, "TETRIS!");
    let mut f = display(128, 48, 16);
    f.draw_text(0, 0, "tetris!".to_string());
    assert_eq!(e.buffer, f.buffer);
}

#[test]
fn a_block_fits_with_a_cell_to_spare() {
    // Four cells by three.
    let d = display(64, 48, 16);
    assert!(d.can_draw_block(0, 0));
    assert!(d.can_draw_block(2, 1));
    assert!(!d.can_draw_block(3, 1));
    assert!(!d.can_draw_block(2, 2));
    assert!(!d.can_draw_block(u32::MAX, 0));
    // Cells of four pixels: a block reaches over four of them.
    let fine = display(100, 60, 4);
    assert!(fine.can_draw_block(20, 10));
    assert!(!fine.can_draw_block(21, 10));
    assert!(!fine.can_draw_block(20, 11));
    // Cells larger than a block.
    let coarse = display(100, 70, 32);
    assert!(coarse.can_draw_block(2, 1));
    assert!(!coarse.can_draw_block(3, 1));
    assert!(!coarse.can_draw_block(2, 2));
}

#[test]
fn drawing_in_the_last_cell_that_fits_stays_inside_the_buffer() {
    let mut d = display(100, 70, 32);
    d.draw_block(0x00FF_FFFF, 2, 1);
    assert_eq!(d.buffer[100 * 47 + 79], 0x00FF_FFFF);
    assert_eq!(d.buffer[100 * 32 + 65], 0x0001_0101);
    assert_eq!(d.buffer.iter().filter(|p| **p != 0).count(), 255);
}
