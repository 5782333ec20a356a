use ublocks_ascii_art::{
    rasterize, render_glyphs, GlyphInk, Raster, RotatedRaster90, SimpleRaster,
};

fn glyph(min_x: i32, min_y: i32, samples: Vec<(u32, u32)>) -> GlyphInk {
    GlyphInk { min_x, min_y, samples }
}

#[test]
fn no_glyphs_render_empty() {
    let none: Vec<GlyphInk> = Vec::new();
    assert_eq!(render_glyphs::<SimpleRaster>(0, 0, &none), "");
    assert_eq!(render_glyphs::<SimpleRaster>(0, 10, &none), "");
    assert_eq!(render_glyphs::<RotatedRaster90<SimpleRaster>>(0, 10, &none), "");
}

#[test]
fn narrow_vertical_stroke() {
    let samples: Vec<(u32, u32)> = (0..10u32).map(|y| (0, y)).collect();
    let glyphs = vec![glyph(1, 0, samples)];
    let out = render_glyphs::<SimpleRaster>(4, 10, &glyphs);
    let rows: Vec<&str> = out.split('\n').collect();
    assert_eq!(rows.len(), 5);
    for row in rows.iter() {
        assert_eq!(*row, "▐ ");
        assert!(row.chars().any(|c| c != ' '));
    }
}

#[test]
fn samples_outside_canvas_are_dropped() {
    let glyphs = vec![
        glyph(-1, 0, vec![(0, 0), (1, 0)]),
        glyph(3, 3, vec![(0, 0), (1, 0), (0, 1)]),
    ];
    let out = render_glyphs::<SimpleRaster>(4, 4, &glyphs);
    assert_eq!(out, "▘ \n ▗");
}

#[test]
fn clipping_uses_requested_size() {
    let glyphs = vec![glyph(0, 0, vec![(0, 0), (3, 0), (0, 3)])];
    let out = render_glyphs::<SimpleRaster>(3, 3, &glyphs);
    assert_eq!(out, "▘ ");
}

#[test]
fn glyph_offsets_are_added() {
    let glyphs = vec![glyph(2, 1, vec![(0, 0), (1, 1)])];
    let canvas: SimpleRaster = rasterize(4, 4, &glyphs);
    assert_eq!(canvas.width(), 4);
    assert_eq!(canvas.height(), 4);
    assert_eq!(canvas.render(), " ▖\n ▝\n");
}

#[test]
fn rotated_canvas_through_pipeline() {
    let glyphs = vec![glyph(0, 0, vec![(0, 0)])];
    let out = render_glyphs::<RotatedRaster90<SimpleRaster>>(4, 2, &glyphs);
    assert_eq!(out, "▖");
}
