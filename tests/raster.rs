use ublocks_ascii_art::raster::{canvas_size_fits, quadrant_block};
use ublocks_ascii_art::{Raster, RotatedRaster180, RotatedRaster270, RotatedRaster90, SimpleRaster};

#[test]
fn new_rounds_sides_up_to_even() {
    let c = SimpleRaster::new(3, 5);
    assert_eq!(c.width(), 4);
    assert_eq!(c.height(), 6);
    let d = SimpleRaster::new(4, 2);
    assert_eq!(d.width(), 4);
    assert_eq!(d.height(), 2);
    let e = SimpleRaster::new(0, 0);
    assert_eq!(e.width(), 0);
    assert_eq!(e.height(), 0);
    assert_eq!(e.render(), "");
}

#[test]
fn even_sides_for_many_sizes() {
    for w in 0..9usize {
        for h in 0..9usize {
            let c = SimpleRaster::new(w, h);
            assert_eq!(c.width() % 2, 0);
            assert_eq!(c.height() % 2, 0);
            assert!(c.width() >= w && c.width() - w <= 1);
            assert!(c.height() >= h && c.height() - h <= 1);
        }
    }
}

#[test]
fn rotated_new_keeps_outward_size() {
    let c = RotatedRaster90::<SimpleRaster>::new(3, 6);
    assert_eq!(c.width(), 4);
    assert_eq!(c.height(), 6);
    let d = RotatedRaster270::<SimpleRaster>::new(5, 1);
    assert_eq!(d.width(), 6);
    assert_eq!(d.height(), 2);
}

#[test]
fn empty_canvas_renders_blank_rows() {
    let c = SimpleRaster::new(4, 4);
    assert_eq!(c.render(), "  \n  \n");
}

#[test]
fn quadrant_table_single_block() {
    let table = [
        ((false, false, false, false), ' '),
        ((false, false, false, true), '▗'),
        ((false, false, true, false), '▖'),
        ((false, false, true, true), '▄'),
        ((false, true, false, false), '▝'),
        ((false, true, false, true), '▐'),
        ((false, true, true, false), '▞'),
        ((false, true, true, true), '▟'),
        ((true, false, false, false), '▘'),
        ((true, false, false, true), '▚'),
        ((true, false, true, false), '▌'),
        ((true, false, true, true), '▙'),
        ((true, true, false, false), '▀'),
        ((true, true, false, true), '▜'),
        ((true, true, true, false), '▛'),
        ((true, true, true, true), '█'),
    ];
    for (q, expected) in table.iter() {
        assert_eq!(quadrant_block(*q), *expected);
        let mut c = SimpleRaster::new(2, 2);
        if q.0 {
            c.set_pixel(0, 0);
        }
        if q.1 {
            c.set_pixel(1, 0);
        }
        if q.2 {
            c.set_pixel(0, 1);
        }
        if q.3 {
            c.set_pixel(1, 1);
        }
        assert_eq!(c.render(), format!("{}\n", expected));
    }
}

#[test]
fn render_lays_blocks_out_row_major() {
    let mut c = SimpleRaster::new(4, 4);
    c.set_pixel(3, 0);
    c.set_pixel(0, 3);
    c.set_pixel(1, 3);
    assert_eq!(c.render(), " ▝\n▄ \n");
}

#[test]
fn set_pixel_twice_is_same_as_once() {
    let mut c = SimpleRaster::new(2, 2);
    c.set_pixel(1, 1);
    c.set_pixel(1, 1);
    assert_eq!(c.render(), "▗\n");
}

#[test]
fn quarter_turn_places_pixel_clockwise() {
    let mut c = RotatedRaster90::<SimpleRaster>::new(4, 2);
    c.set_pixel(0, 0);
    assert_eq!(c.render(), " \n▖\n");
}

#[test]
fn half_turn_moves_corner_to_opposite_corner() {
    let mut c = RotatedRaster180::<SimpleRaster>::new(4, 4);
    c.set_pixel(0, 0);
    assert_eq!(c.render(), "  \n ▗\n");
}

#[test]
fn four_quarter_turns_match_unturned() {
    let points = [(0usize, 0usize), (5, 1), (2, 3), (3, 2), (4, 0)];
    let mut plain = SimpleRaster::new(6, 4);
    let mut turned = RotatedRaster90::<RotatedRaster270<SimpleRaster>>::new(6, 4);
    assert_eq!(turned.width(), 6);
    assert_eq!(turned.height(), 4);
    for (x, y) in points.iter() {
        plain.set_pixel(*x, *y);
        turned.set_pixel(*x, *y);
    }
    assert_eq!(turned.render(), plain.render());
    assert_eq!(plain.render(), "▘ ▚\n ▞ \n");
}

#[test]
fn canvas_size_limits() {
    assert!(canvas_size_fits(3, 5));
    assert!(canvas_size_fits(0, usize::MAX - 1));
    assert!(!canvas_size_fits(usize::MAX, 0));
    assert!(!canvas_size_fits(0, usize::MAX));
    assert!(!canvas_size_fits(usize::MAX - 1, 2));
}

#[test]
fn three_quarter_turn_places_pixel_counterclockwise() {
    let mut c = RotatedRaster270::<SimpleRaster>::new(4, 2);
    assert_eq!(c.width(), 4);
    assert_eq!(c.height(), 2);
    c.set_pixel(0, 0);
    assert_eq!(c.render(), "▝\n \n");
}
