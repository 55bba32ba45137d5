use snake_game::graphics::font::{CharInfo, CpuImage, Font, Glyph, GAP};

fn glyph(width: u16, height: u16, shade: u8) -> Glyph {
    let mut pixels = Vec::new();
    for j in 0..height {
        for i in 0..width {
            pixels.push([shade, i as u8, j as u8, 255]);
        }
    }
    Glyph { width, height, offset_x: 1, offset_y: -2, pixels }
}

fn pixel(image: &CpuImage, x: usize, y: usize) -> [u8; 4] {
    let at = (y * image.width as usize + x) * 4;
    [image.bytes[at], image.bytes[at + 1], image.bytes[at + 2], image.bytes[at + 3]]
}

#[test]
fn image_is_filled_with_the_color() {
    let image = CpuImage::gen_image_color(3, 2, [1, 2, 3, 4]);
    assert_eq!(image.width, 3);
    assert_eq!(image.height, 2);
    assert_eq!(image.bytes.len(), 24);
    for p in 0..6 {
        assert_eq!(&image.bytes[p * 4..p * 4 + 4], &[1, 2, 3, 4]);
    }
    let empty = CpuImage::gen_image_color(0, 7, [9, 9, 9, 9]);
    assert!(empty.bytes.is_empty());
}

#[test]
fn set_pixel_writes_one_pixel() {
    let mut image = CpuImage::gen_image_color(3, 2, [0, 0, 0, 0]);
    image.set_pixel(1, 1, [5, 6, 7, 8]);
    for y in 0..2 {
        for x in 0..3 {
            let expected = if (x, y) == (1, 1) { [5, 6, 7, 8] } else { [0, 0, 0, 0] };
            assert_eq!(pixel(&image, x, y), expected);
        }
    }
    // a column beyond the row's end counts on into the next row
    image.set_pixel(4, 0, [1, 1, 1, 1]);
    assert_eq!(pixel(&image, 1, 1), [1, 1, 1, 1]);
}

#[test]
fn new_atlas_is_clear() {
    let font = Font::load("KenneyFuture".to_string());
    assert_eq!(font.name, "KenneyFuture");
    assert_eq!(font.image_dimensions(), (1024, 1024));
    assert_eq!(font.font_image.bytes.len(), 1024 * 1024 * 4);
    assert!(font.font_image.bytes.iter().all(|b| *b == 0));
    assert_eq!((font.cursor_x, font.cursor_y, font.max_line_height), (0, 0, 0));
    assert!(font.glyphs.is_empty());
    assert_eq!(font.glyph('a'), None);
    assert_eq!(GAP, 16);
}

#[test]
fn glyphs_are_packed_side_by_side() {
    let mut font = Font::load("f".to_string());
    let a = glyph(10, 20, 100);
    let b = glyph(5, 30, 200);
    assert!(font.check_cache(&a));
    font.cache_glyph('a', &a);
    assert_eq!((font.cursor_x, font.cursor_y, font.max_line_height), (10, 0, 20));
    font.cache_glyph('b', &b);
    assert_eq!((font.cursor_x, font.cursor_y, font.max_line_height), (15, 0, 30));
    assert_eq!(
        font.glyph('a'),
        Some(CharInfo { offset_x: 1, offset_y: -2, glyph_x: 0, glyph_y: 0, glyph_w: 10, glyph_h: 20 })
    );
    assert_eq!(
        font.glyph('b'),
        Some(CharInfo { offset_x: 1, offset_y: -2, glyph_x: 10, glyph_y: 0, glyph_w: 5, glyph_h: 30 })
    );
    assert_eq!(font.glyph('c'), None);
    for j in 0..20usize {
        for i in 0..10usize {
            assert_eq!(pixel(&font.font_image, i, j), [100, i as u8, j as u8, 255]);
        }
    }
    for j in 0..30usize {
        for i in 0..5usize {
            assert_eq!(pixel(&font.font_image, 10 + i, j), [200, i as u8, j as u8, 255]);
        }
    }
    // the rest of the image is as it was
    assert_eq!(pixel(&font.font_image, 15, 0), [0, 0, 0, 0]);
    assert_eq!(pixel(&font.font_image, 0, 20), [0, 0, 0, 0]);
    assert_eq!(pixel(&font.font_image, 10, 30), [0, 0, 0, 0]);
    assert_eq!(pixel(&font.font_image, 9, 29), [0, 0, 0, 0]);
}

#[test]
fn a_full_row_starts_a_new_one() {
    let mut font = Font::load("f".to_string());
    // 1024 - 16 - 8 = 1000: the row takes glyphs while the cursor is below that
    let wide = glyph(500, 10, 1);
    font.cache_glyph('a', &wide);
    font.cache_glyph('b', &wide);
    assert_eq!((font.cursor_x, font.cursor_y, font.max_line_height), (1000, 0, 10));
    let small = glyph(7, 4, 2);
    font.cache_glyph('c', &small);
    assert_eq!((font.cursor_x, font.cursor_y, font.max_line_height), (1007, 0, 10));
    let next = glyph(8, 12, 3);
    assert!(font.check_cache(&next));
    font.cache_glyph('d', &next);
    assert_eq!((font.cursor_x, font.cursor_y, font.max_line_height), (24, 26, 12));
    assert_eq!(
        font.glyph('d'),
        Some(CharInfo { offset_x: 1, offset_y: -2, glyph_x: 16, glyph_y: 26, glyph_w: 8, glyph_h: 12 })
    );
    assert_eq!(pixel(&font.font_image, 16, 26), [3, 0, 0, 255]);
    assert_eq!(pixel(&font.font_image, 23, 37), [3, 7, 11, 255]);
    assert_eq!(pixel(&font.font_image, 15, 26), [0, 0, 0, 0]);
}

#[test]
fn the_latest_glyph_of_a_character_counts() {
    let mut font = Font::load("f".to_string());
    font.cache_glyph('a', &glyph(3, 3, 1));
    font.cache_glyph('a', &glyph(4, 4, 2));
    assert_eq!(font.glyphs.len(), 1);
    assert_eq!(font.glyph('a').unwrap().glyph_x, 3);
    assert_eq!(font.glyph('a').unwrap().glyph_w, 4);
}

#[test]
fn what_does_not_fit_is_refused() {
    let font = Font::load("f".to_string());
    assert!(!font.check_cache(&glyph(10, 1025, 1)));
    assert!(!font.check_cache(&glyph(1010, 10, 1)));
    assert!(font.check_cache(&glyph(1007, 1024, 1)));
    assert!(!font.check_cache(&Glyph {
        width: 2,
        height: 2,
        offset_x: 0,
        offset_y: 0,
        pixels: vec![[0, 0, 0, 0]; 3],
    }));
    assert!(!font.check_cache(&Glyph {
        width: u16::MAX,
        height: 1,
        offset_x: 0,
        offset_y: 0,
        pixels: vec![[0, 0, 0, 0]; u16::MAX as usize],
    }));
    assert!(font.check_cache(&glyph(0, 0, 1)));
    let mut low = Font::load("f".to_string());
    low.cache_glyph('a', &glyph(1000, 1000, 1));
    // the next row would begin at 1016
    assert!(low.check_cache(&glyph(10, 8, 1)));
    assert!(!low.check_cache(&glyph(10, 9, 1)));
}
