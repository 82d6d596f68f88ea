use rustgl::graphics::text::packing::{do_font_packing, GlyphInfo};
use rustgl::graphics::text::{apply_packing, convert_r_to_rgba, default_characters, GlyphImage};

#[test]
fn default_characters_are_nul_then_printable_ascii() {
    let cs = default_characters();
    assert_eq!(cs.len(), 96);
    assert_eq!(cs[0], '\0');
    assert_eq!(cs[1], ' ');
    assert_eq!(cs[95], '~');
}

#[test]
fn grey_bytes_become_rgba() {
    assert_eq!(convert_r_to_rgba(&vec![1, 200]), vec![1, 1, 1, 1, 200, 200, 200, 200]);
    assert!(convert_r_to_rgba(&vec![]).is_empty());
}

#[test]
fn packed_glyphs_stay_inside_and_apart() {
    let glyphs: Vec<GlyphInfo> = (0..40u32)
        .map(|i| GlyphInfo { id: i, width: 5 + (i * 7) % 13, height: 4 + (i * 5) % 11 })
        .collect();
    let p = do_font_packing(&glyphs).unwrap();
    assert_eq!(p.width(), p.height());
    assert!(p.width().is_power_of_two() && p.width() >= 64);
    let mut rects = Vec::new();
    for g in &glyphs {
        let (x, y) = p.get_glyph_pos(g.id).unwrap();
        assert!(x + g.width <= p.width() && y + g.height <= p.height());
        rects.push((x, y, g.width, g.height));
    }
    for i in 0..rects.len() {
        for j in i + 1..rects.len() {
            let (ax, ay, aw, ah) = rects[i];
            let (bx, by, bw, bh) = rects[j];
            assert!(ax + aw <= bx || bx + bw <= ax || ay + ah <= by || by + bh <= ay);
        }
    }
    assert!(p.get_glyph_pos(1000).is_none());
}

#[test]
fn glyphs_too_big_for_any_texture_are_not_packed() {
    let glyphs = vec![GlyphInfo { id: 0, width: 20000, height: 3 }];
    assert!(do_font_packing(&glyphs).is_none());
    let none: Vec<GlyphInfo> = vec![];
    let p = do_font_packing(&none).unwrap();
    assert_eq!(p.width(), 64);
}

#[test]
fn rows_are_filled_tallest_first() {
    let glyphs = vec![
        GlyphInfo { id: 0, width: 40, height: 10 },
        GlyphInfo { id: 1, width: 40, height: 10 },
        GlyphInfo { id: 2, width: 30, height: 20 },
    ];
    let p = do_font_packing(&glyphs).unwrap();
    assert_eq!(p.width(), 64);
    assert_eq!(p.get_glyph_pos(2), Some((0, 0)));
    assert_eq!(p.get_glyph_pos(0), Some((0, 20)));
    assert_eq!(p.get_glyph_pos(1), Some((0, 30)));
    let small = vec![
        GlyphInfo { id: 7, width: 10, height: 10 },
        GlyphInfo { id: 8, width: 10, height: 10 },
        GlyphInfo { id: 9, width: 10, height: 10 },
    ];
    let q = do_font_packing(&small).unwrap();
    assert_eq!(q.get_glyph_pos(7), Some((0, 0)));
    assert_eq!(q.get_glyph_pos(8), Some((10, 0)));
    assert_eq!(q.get_glyph_pos(9), Some((20, 0)));
}

#[test]
fn glyph_bitmaps_are_copied_to_their_places() {
    let glyphs = vec![
        GlyphImage { id: 1, width: 3, height: 2, buffer: vec![1, 2, 3, 4, 5, 6] },
        GlyphImage { id: 2, width: 1, height: 1, buffer: vec![9] },
        GlyphImage { id: 3, width: 0, height: 4, buffer: vec![] },
    ];
    let p = do_font_packing(&glyphs).unwrap();
    let image = apply_packing(&glyphs, &p);
    let w = p.width() as usize;
    assert_eq!(image.len(), w * p.height() as usize);
    assert_eq!(p.get_glyph_pos(1), Some((0, 0)));
    assert_eq!(p.get_glyph_pos(2), Some((3, 0)));
    assert_eq!(&image[0..4], &[1, 2, 3, 9]);
    assert_eq!(&image[w..w + 4], &[4, 5, 6, 0]);
    for g in &glyphs {
        let (x, y) = p.get_glyph_pos(g.id).unwrap();
        for gy in 0..g.height as usize {
            for gx in 0..g.width as usize {
                let at = (y as usize + gy) * w + x as usize + gx;
                assert_eq!(image[at], g.buffer[gy * g.width as usize + gx]);
            }
        }
    }
    assert_eq!(image.iter().filter(|b| **b != 0).count(), 7);
}
