//! Turning the ink of laid-out glyphs into a canvas, and the canvas into text.
use vstd::prelude::*;

use crate::raster::{
    block_rows, canvas_fits, even_up, lemma_blank_art, turned_in, Raster, RotatedRaster90, SimpleRaster,
};
use crate::trim::{lemma_blank_trims_to_empty, trim_blank_lines, trimmed};

verus! {

/// The ink of one glyph: the canvas position of the top-left corner of its
/// pixel box, and the positions inside that box of the samples whose coverage
/// passed the opacity threshold.
pub struct GlyphInk {
    pub min_x: i32,
    pub min_y: i32,
    pub samples: Vec<(u32, u32)>,
}

/// The canvas position of sample `k` of a glyph.
pub open spec fn sample_point(glyph: GlyphInk, k: int) -> (int, int) {
    (glyph.samples@[k].0 + glyph.min_x, glyph.samples@[k].1 + glyph.min_y)
}

/// Sample `k` of glyph `g` lands on position `p`.
pub open spec fn inks(glyphs: Seq<GlyphInk>, g: int, k: int, p: (int, int)) -> bool {
    &&& 0 <= g < glyphs.len()
    &&& 0 <= k < glyphs[g].samples@.len()
    &&& sample_point(glyphs[g], k) == p
}

/// Position `p` lies in the `width` by `height` rectangle at the origin.
pub open spec fn within(p: (int, int), width: int, height: int) -> bool {
    0 <= p.0 < width && 0 <= p.1 < height
}

/// The positions inside `width` by `height` that some sample of some glyph
/// lands on; samples outside are dropped.
pub open spec fn inked_pixels(glyphs: Seq<GlyphInk>, width: int, height: int) -> Set<(int, int)> {
    Set::new(
        |p: (int, int)|
            within(p, width, height) && exists|g: int, k: int| #[trigger] inks(glyphs, g, k, p),
    )
}

/// The part of `inked_pixels` due to the samples before sample `s` of glyph `n`.
spec fn inked_before(glyphs: Seq<GlyphInk>, width: int, height: int, n: int, s: int) -> Set<(int, int)> {
    Set::new(
        |p: (int, int)|
            within(p, width, height) && exists|g: int, k: int|
                #[trigger] inks(glyphs, g, k, p) && (g < n || (g == n && k < s)),
    )
}

/// A canvas of kind `R` with room for `width` by `height` pixels, in which
/// exactly the pixels that the glyphs ink inside that rectangle are set.
pub fn rasterize<R: Raster>(width: usize, height: usize, glyphs: &Vec<GlyphInk>) -> (r: R)
    requires
        canvas_fits(width as nat, height as nat),
    ensures
        r.wf(),
        r.spec_width() == even_up(width as nat),
        r.spec_height() == even_up(height as nat),
        r.pixels() == inked_pixels(glyphs@, width as int, height as int),
{
    let ghost gs = glyphs@;
    let ghost w = width as int;
    let ghost h = height as int;
    let mut raster = R::new(width, height);
    assert(raster.pixels() =~= inked_before(gs, w, h, 0, 0));
    let mut n: usize = 0;
    while n < glyphs.len()
        invariant
            gs == glyphs@,
            w == width,
            h == height,
            n <= gs.len(),
            raster.wf(),
            raster.spec_width() == even_up(width as nat),
            raster.spec_height() == even_up(height as nat),
            raster.pixels() == inked_before(gs, w, h, n as int, 0),
        decreases gs.len() - n,
    {
        let glyph = &glyphs[n];
        let mut s: usize = 0;
        while s < glyph.samples.len()
            invariant
                gs == glyphs@,
                w == width,
                h == height,
                n < gs.len(),
                *glyph == gs[n as int],
                s <= glyph.samples@.len(),
                raster.wf(),
                raster.spec_width() == even_up(width as nat),
                raster.spec_height() == even_up(height as nat),
                raster.pixels() == inked_before(gs, w, h, n as int, s as int),
            decreases glyph.samples@.len() - s,
        {
            let (sx, sy) = glyph.samples[s];
            let px: i64 = sx as i64 + glyph.min_x as i64;
            let py: i64 = sy as i64 + glyph.min_y as i64;
            let ghost p = (px as int, py as int);
            let ghost before = raster.pixels();
            assert(inks(gs, n as int, s as int, p));
            if px >= 0 && py >= 0 && (px as u64) < (width as u64) && (py as u64) < (height as u64) {
                raster.set_pixel(px as usize, py as usize);
                assert forall|q: (int, int)|
                    #[trigger] inked_before(gs, w, h, n as int, s + 1).contains(q)
                        == before.insert(p).contains(q) by {
                    if inked_before(gs, w, h, n as int, s + 1).contains(q) && q != p {
                        let (g, k) = choose|g: int, k: int|
                            #[trigger] inks(gs, g, k, q) && (g < n || (g == n && k < s + 1));
                        assert(inks(gs, g, k, q) && (g < n || (g == n && k < s)));
                    }
                }
                assert(raster.pixels() =~= inked_before(gs, w, h, n as int, s + 1));
            } else {
                assert forall|q: (int, int)|
                    #[trigger] inked_before(gs, w, h, n as int, s + 1).contains(q)
                        == before.contains(q) by {
                    if inked_before(gs, w, h, n as int, s + 1).contains(q) {
                        let (g, k) = choose|g: int, k: int|
                            #[trigger] inks(gs, g, k, q) && (g < n || (g == n && k < s + 1));
                        assert(inks(gs, g, k, q) && (g < n || (g == n && k < s)));
                    }
                }
                assert(raster.pixels() =~= inked_before(gs, w, h, n as int, s + 1));
            }
            s = s + 1;
        }
        assert(inked_before(gs, w, h, n as int, s as int) =~= inked_before(gs, w, h, n + 1, 0));
        n = n + 1;
    }
    assert(inked_before(gs, w, h, n as int, 0) =~= inked_pixels(gs, w, h));
    raster
}

/// The glyphs drawn on a canvas of kind `R` of the given size, rendered, and
/// trimmed of blank rows at the top and bottom.
pub fn render_glyphs<R: Raster>(width: usize, height: usize, glyphs: &Vec<GlyphInk>) -> (r: String)
    requires
        canvas_fits(width as nat, height as nat),
    ensures
        r@ == trimmed(
            R::rendering(
                even_up(width as nat),
                even_up(height as nat),
                inked_pixels(glyphs@, width as int, height as int),
            ),
        ),
{
    let raster: R = rasterize(width, height, glyphs);
    let rendered = raster.render();
    let trimmed_text = trim_blank_lines(rendered.as_str());
    trimmed_text.to_owned()
}

/// Without glyphs (empty text) the result is empty, on a plain canvas and on
/// a quarter-turned one.
pub proof fn lemma_no_glyphs_render_empty(width: nat, height: nat)
    ensures
        trimmed(
            SimpleRaster::rendering(
                even_up(width),
                even_up(height),
                inked_pixels(Seq::empty(), width as int, height as int),
            ),
        ) == Seq::<char>::empty(),
        trimmed(
            RotatedRaster90::<SimpleRaster>::rendering(
                even_up(width),
                even_up(height),
                inked_pixels(Seq::empty(), width as int, height as int),
            ),
        ) == Seq::<char>::empty(),
{
    let none = Set::<(int, int)>::empty();
    assert(inked_pixels(Seq::empty(), width as int, height as int) =~= none);
    assert(turned_in(none, even_up(width) as int) =~= none);
    lemma_blank_art(even_up(width), even_up(height) / 2);
    lemma_blank_art(even_up(height), even_up(width) / 2);
    lemma_blank_trims_to_empty(block_rows(even_up(width), none, even_up(height) / 2));
    lemma_blank_trims_to_empty(block_rows(even_up(height), none, even_up(width) / 2));
}

} // verus!
