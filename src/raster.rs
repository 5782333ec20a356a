//! Monochrome canvases and their quadrant-character rendering.
use vstd::prelude::*;

use bit_vec::BitVec;

use crate::bits::{bits_all_clear, bits_of, bits_raise, bits_read};

verus! {

/// The smallest even number that is at least `n`.
pub open spec fn even_up(n: nat) -> nat {
    n + n % 2
}

/// A canvas of the requested size, rounded up to even sides, can be indexed
/// by `usize`.
pub open spec fn canvas_fits(width: nat, height: nat) -> bool {
    &&& even_up(width) <= usize::MAX
    &&& even_up(height) <= usize::MAX
    &&& even_up(width) * even_up(height) <= usize::MAX
}

/// The block character that shows a 2x2 pixel block, given its top-left,
/// top-right, bottom-left and bottom-right pixels.
pub open spec fn quadrant_char(tl: bool, tr: bool, bl: bool, br: bool) -> char {
    match (tl, tr, bl, br) {
        (false, false, false, false) => ' ',
        (false, false, false, true) => '▗',
        (false, false, true, false) => '▖',
        (false, false, true, true) => '▄',
        (false, true, false, false) => '▝',
        (false, true, false, true) => '▐',
        (false, true, true, false) => '▞',
        (false, true, true, true) => '▟',
        (true, false, false, false) => '▘',
        (true, false, false, true) => '▚',
        (true, false, true, false) => '▌',
        (true, false, true, true) => '▙',
        (true, true, false, false) => '▀',
        (true, true, false, true) => '▜',
        (true, true, true, false) => '▛',
        (true, true, true, true) => '█',
    }
}

/// The character for block column `bx` of block row `by`.
pub open spec fn block_at(pixels: Set<(int, int)>, bx: int, by: int) -> char {
    quadrant_char(
        pixels.contains((2 * bx, 2 * by)),
        pixels.contains((2 * bx + 1, 2 * by)),
        pixels.contains((2 * bx, 2 * by + 1)),
        pixels.contains((2 * bx + 1, 2 * by + 1)),
    )
}

/// Block row `by` of a canvas `width` pixels wide, with its line break.
pub open spec fn block_row(width: nat, pixels: Set<(int, int)>, by: int) -> Seq<char> {
    Seq::new(width / 2, |bx: int| block_at(pixels, bx, by)).push('\n')
}

/// The first `n` block rows, one after the other.
pub open spec fn block_rows(width: nat, pixels: Set<(int, int)>, n: nat) -> Seq<char>
    decreases n,
{
    if n == 0 {
        Seq::empty()
    } else {
        block_rows(width, pixels, (n - 1) as nat) + block_row(width, pixels, n - 1)
    }
}

/// The text of a canvas: `height / 2` rows of `width / 2` block characters,
/// each row ended by a line break.
pub open spec fn quadrant_art(width: nat, height: nat, pixels: Set<(int, int)>) -> Seq<char> {
    block_rows(width, pixels, height / 2)
}

/// A pixel-addressable surface that renders itself as text.
pub trait Raster: Sized {
    /// The canvas's internal invariant.
    spec fn wf(&self) -> bool;

    /// The width in pixels, as `width` returns it.
    spec fn spec_width(&self) -> nat;

    /// The height in pixels, as `height` returns it.
    spec fn spec_height(&self) -> nat;

    /// The coordinates `(x, y)` of the pixels that are set.
    spec fn pixels(&self) -> Set<(int, int)>;

    /// What `render` returns for a canvas of this kind with the given size and pixels.
    spec fn rendering(width: nat, height: nat, pixels: Set<(int, int)>) -> Seq<char>;

    /// An empty canvas whose sides are those requested, rounded up to even numbers.
    fn new(width: usize, height: usize) -> (r: Self)
        requires
            canvas_fits(width as nat, height as nat),
        ensures
            r.wf(),
            r.spec_width() == even_up(width as nat),
            r.spec_height() == even_up(height as nat),
            r.pixels() == Set::<(int, int)>::empty(),
    ;

    fn width(&self) -> (r: usize)
        requires
            self.wf(),
        ensures
            r as nat == self.spec_width(),
    ;

    fn height(&self) -> (r: usize)
        requires
            self.wf(),
        ensures
            r as nat == self.spec_height(),
    ;

    /// Sets pixel `(x, y)`, which must lie on the canvas.
    fn set_pixel(&mut self, x: usize, y: usize)
        requires
            old(self).wf(),
            (x as nat) < old(self).spec_width(),
            (y as nat) < old(self).spec_height(),
        ensures
            final(self).wf(),
            final(self).spec_width() == old(self).spec_width(),
            final(self).spec_height() == old(self).spec_height(),
            final(self).pixels() == old(self).pixels().insert((x as int, y as int)),
    ;

    /// The canvas as text.
    fn render(&self) -> (r: String)
        requires
            self.wf(),
        ensures
            r@ == Self::rendering(self.spec_width(), self.spec_height(), self.pixels()),
    ;
}

/// A canvas stored as a dense row-major bit array.
pub struct SimpleRaster {
    width: usize,
    height: usize,
    storage: BitVec<u32>,
}

/// Relies on `String::push`: the character is appended at the end.
#[verifier::external_body]
fn push_char(s: &mut String, c: char)
    ensures
        final(s)@ == old(s)@.push(c),
{
    s.push(c)
}

/// The character that shows a block, looked up by its top-left, top-right,
/// bottom-left and bottom-right pixels.
pub fn quadrant_block(quadrants: (bool, bool, bool, bool)) -> (c: char)
    ensures
        c == quadrant_char(quadrants.0, quadrants.1, quadrants.2, quadrants.3),
{
    match quadrants {
        (false, false, false, false) => ' ',
        (false, false, false, true) => '▗',
        (false, false, true, false) => '▖',
        (false, false, true, true) => '▄',
        (false, true, false, false) => '▝',
        (false, true, false, true) => '▐',
        (false, true, true, false) => '▞',
        (false, true, true, true) => '▟',
        (true, false, false, false) => '▘',
        (true, false, false, true) => '▚',
        (true, false, true, false) => '▌',
        (true, false, true, true) => '▙',
        (true, true, false, false) => '▀',
        (true, true, false, true) => '▜',
        (true, true, true, false) => '▛',
        (true, true, true, true) => '█',
    }
}

/// Row-major indices are distinct for distinct pixels of a row of `w`.
proof fn lemma_index_unique(w: int, x1: int, y1: int, x2: int, y2: int)
    requires
        0 <= x1 < w,
        0 <= x2 < w,
        0 <= y1,
        0 <= y2,
        y1 * w + x1 == y2 * w + x2,
    ensures
        x1 == x2,
        y1 == y2,
{
    if y1 < y2 {
        assert((y1 + 1) * w <= y2 * w) by (nonlinear_arith)
            requires
                y1 + 1 <= y2,
                0 <= w,
        ;
        assert((y1 + 1) * w == y1 * w + w) by (nonlinear_arith);
    } else if y2 < y1 {
        assert((y2 + 1) * w <= y1 * w) by (nonlinear_arith)
            requires
                y2 + 1 <= y1,
                0 <= w,
        ;
        assert((y2 + 1) * w == y2 * w + w) by (nonlinear_arith);
    }
}

/// A pixel on a `w` by `h` canvas has a row-major index below `w * h`.
proof fn lemma_index_bound(w: int, h: int, x: int, y: int)
    requires
        0 <= x < w,
        0 <= y < h,
    ensures
        0 <= y * w + x < w * h,
{
    assert(0 <= y * w) by (nonlinear_arith)
        requires
            0 <= y,
            0 <= w,
    ;
    assert((y + 1) * w <= h * w) by (nonlinear_arith)
        requires
            y + 1 <= h,
            0 <= w,
    ;
    assert((y + 1) * w == y * w + w) by (nonlinear_arith);
    assert(h * w == w * h) by (nonlinear_arith);
}

impl Raster for SimpleRaster {
    closed spec fn wf(&self) -> bool {
        &&& self.width % 2 == 0
        &&& self.height % 2 == 0
        &&& self.width * self.height <= usize::MAX
        &&& bits_of(self.storage).len() == self.width * self.height
    }

    closed spec fn spec_width(&self) -> nat {
        self.width as nat
    }

    closed spec fn spec_height(&self) -> nat {
        self.height as nat
    }

    closed spec fn pixels(&self) -> Set<(int, int)> {
        Set::new(
            |p: (int, int)|
                0 <= p.0 < self.width && 0 <= p.1 < self.height && bits_of(self.storage)[p.1
                    * self.width + p.0],
        )
    }

    open spec fn rendering(width: nat, height: nat, pixels: Set<(int, int)>) -> Seq<char> {
        quadrant_art(width, height, pixels)
    }

    fn new(width: usize, height: usize) -> (r: Self) {
        let width: usize = width + width % 2;
        let height: usize = height + height % 2;
        let storage = bits_all_clear(width * height);
        let r = SimpleRaster { width, height, storage };
        assert forall|p: (int, int)| !#[trigger] r.pixels().contains(p) by {
            if 0 <= p.0 < width && 0 <= p.1 < height {
                lemma_index_bound(width as int, height as int, p.0, p.1);
            }
        }
        assert(r.pixels() =~= Set::<(int, int)>::empty());
        r
    }

    fn width(&self) -> (r: usize) {
        self.width
    }

    fn height(&self) -> (r: usize) {
        self.height
    }

    fn set_pixel(&mut self, x: usize, y: usize) {
        proof {
            lemma_index_bound(self.width as int, self.height as int, x as int, y as int);
        }
        let ghost before = self.pixels();
        let index: usize = y * self.width + x;
        bits_raise(&mut self.storage, index);
        assert forall|p: (int, int)| #[trigger]
            self.pixels().contains(p) == before.insert((x as int, y as int)).contains(p) by {
            if 0 <= p.0 < self.width && 0 <= p.1 < self.height {
                lemma_index_bound(self.width as int, self.height as int, p.0, p.1);
                if p.1 * self.width + p.0 == index as int {
                    lemma_index_unique(self.width as int, p.0, p.1, x as int, y as int);
                }
            }
        }
        assert(self.pixels() =~= before.insert((x as int, y as int)));
    }

    fn render(&self) -> (r: String) {
        let ghost pixels = self.pixels();
        let ghost w = self.width as nat;
        let mut output = String::new();
        let width_in_blocks: usize = self.width / 2;
        let height_in_blocks: usize = self.height / 2;
        let mut block_y: usize = 0;
        while block_y < height_in_blocks
            invariant
                self.wf(),
                pixels == self.pixels(),
                w == self.width,
                width_in_blocks == self.width / 2,
                height_in_blocks == self.height / 2,
                block_y <= height_in_blocks,
                output@ == block_rows(w, pixels, block_y as nat),
            decreases height_in_blocks - block_y,
        {
            let ghost row_start = output@;
            let mut block_x: usize = 0;
            while block_x < width_in_blocks
                invariant
                    self.wf(),
                    pixels == self.pixels(),
                    w == self.width,
                    width_in_blocks == self.width / 2,
                    height_in_blocks == self.height / 2,
                    block_y < height_in_blocks,
                    block_x <= width_in_blocks,
                    row_start == block_rows(w, pixels, block_y as nat),
                    output@ == row_start + Seq::new(
                        block_x as nat,
                        |bx: int| block_at(pixels, bx, block_y as int),
                    ),
                decreases width_in_blocks - block_x,
            {
                let x0: usize = block_x * 2;
                let y0: usize = block_y * 2;
                proof {
                    lemma_index_bound(self.width as int, self.height as int, x0 + 1, y0 + 1);
                    lemma_index_bound(self.width as int, self.height as int, x0 as int, y0 + 1);
                    lemma_index_bound(self.width as int, self.height as int, x0 + 1, y0 as int);
                    lemma_index_bound(self.width as int, self.height as int, x0 as int, y0 as int);
                }
                let subpixel = (
                    bits_read(&self.storage, y0 * self.width + x0),
                    bits_read(&self.storage, y0 * self.width + x0 + 1),
                    bits_read(&self.storage, (y0 + 1) * self.width + x0),
                    bits_read(&self.storage, (y0 + 1) * self.width + x0 + 1),
                );
                let character = quadrant_block(subpixel);
                let ghost prev = output@;
                push_char(&mut output, character);
                assert(output@ =~= row_start + Seq::new(
                    (block_x + 1) as nat,
                    |bx: int| block_at(pixels, bx, block_y as int),
                ));
                block_x = block_x + 1;
            }
            push_char(&mut output, '\n');
            assert(output@ =~= block_rows(w, pixels, (block_y + 1) as nat));
            block_y = block_y + 1;
        }
        output
    }
}

/// The pixels of a view turned a quarter turn clockwise from an inner canvas,
/// given the inner canvas's pixels and the view's width (the inner height).
/// View pixel `(x, y)` is inner pixel `(y, width - 1 - x)`.
pub open spec fn turned_out(inner: Set<(int, int)>, width: int) -> Set<(int, int)> {
    Set::new(|q: (int, int)| inner.contains((q.1, width - 1 - q.0)))
}

/// The inner pixels that a quarter-turned view of the given width shows as
/// `outer`: the inverse of `turned_out`.
pub open spec fn turned_in(outer: Set<(int, int)>, width: int) -> Set<(int, int)> {
    Set::new(|r: (int, int)| outer.contains((width - 1 - r.1, r.0)))
}

proof fn lemma_turn_back(inner: Set<(int, int)>, width: int)
    ensures
        turned_in(turned_out(inner, width), width) == inner,
{
    assert(turned_in(turned_out(inner, width), width) =~= inner);
}

/// A view of an inner canvas turned a quarter turn clockwise. Nesting it
/// gives the half and three-quarter turns.
pub struct RotatedRaster<R: Raster>(R);

pub type RotatedRaster90<R> = RotatedRaster<R>;

pub type RotatedRaster180<R> = RotatedRaster90<RotatedRaster90<R>>;

pub type RotatedRaster270<R> = RotatedRaster90<RotatedRaster180<R>>;

impl<R: Raster> Raster for RotatedRaster<R> {
    closed spec fn wf(&self) -> bool {
        self.0.wf()
    }

    closed spec fn spec_width(&self) -> nat {
        self.0.spec_height()
    }

    closed spec fn spec_height(&self) -> nat {
        self.0.spec_width()
    }

    closed spec fn pixels(&self) -> Set<(int, int)> {
        turned_out(self.0.pixels(), self.0.spec_height() as int)
    }

    open spec fn rendering(width: nat, height: nat, pixels: Set<(int, int)>) -> Seq<char> {
        R::rendering(height, width, turned_in(pixels, width as int))
    }

    fn new(width: usize, height: usize) -> (r: Self) {
        assert(even_up(height as nat) * even_up(width as nat) == even_up(width as nat)
            * even_up(height as nat)) by (nonlinear_arith);
        let r = RotatedRaster(R::new(height, width));
        assert(r.pixels() =~= Set::<(int, int)>::empty());
        r
    }

    fn width(&self) -> (r: usize) {
        self.0.height()
    }

    fn height(&self) -> (r: usize) {
        self.0.width()
    }

    fn set_pixel(&mut self, x: usize, y: usize) {
        let ghost before = self.pixels();
        let inner_height = self.0.height();
        self.0.set_pixel(y, inner_height - 1 - x);
        assert(self.pixels() =~= before.insert((x as int, y as int)));
    }

    fn render(&self) -> (r: String) {
        proof {
            lemma_turn_back(self.0.pixels(), self.0.spec_height() as int);
        }
        self.0.render()
    }
}

/// Whether a canvas of the requested size can be made: true exactly when
/// `canvas_fits` holds.
pub fn canvas_size_fits(width: usize, height: usize) -> (r: bool)
    ensures
        r == canvas_fits(width as nat, height as nat),
{
    let w: usize = match width.checked_add(width % 2) {
        Some(w) => w,
        None => return false,
    };
    let h: usize = match height.checked_add(height % 2) {
        Some(h) => h,
        None => return false,
    };
    if w == 0 {
        assert(w * h == 0);
        return true;
    }
    let limit: usize = usize::MAX / w;
    proof {
        let m = usize::MAX as int;
        assert(h <= limit ==> w * h <= m) by (nonlinear_arith)
            requires
                w > 0,
                limit == m / (w as int),
        ;
        assert(h > limit ==> w * h > m) by (nonlinear_arith)
            requires
                w > 0,
                limit == m / (w as int),
        ;
    }
    h <= limit
}

/// Rounding up to even gives an even number at most one above the input.
pub proof fn lemma_even_up(n: nat)
    ensures
        even_up(n) % 2 == 0,
        n <= even_up(n) <= n + 1,
{
}

/// A canvas of a single block renders as the table's character for its four
/// pixels followed by a line break; no pixel gives a space, all four a full block.
pub proof fn lemma_single_block(pixels: Set<(int, int)>)
    ensures
        SimpleRaster::rendering(2, 2, pixels) == seq![
            quadrant_char(
                pixels.contains((0, 0)),
                pixels.contains((1, 0)),
                pixels.contains((0, 1)),
                pixels.contains((1, 1)),
            ),
            '\n',
        ],
        quadrant_char(false, false, false, false) == ' ',
        quadrant_char(true, true, true, true) == '█',
{
    reveal_with_fuel(block_rows, 2);
    assert(block_rows(2, pixels, 1) =~= Seq::<char>::empty() + block_row(2, pixels, 0));
    assert(SimpleRaster::rendering(2, 2, pixels) =~= seq![
        quadrant_char(
            pixels.contains((0, 0)),
            pixels.contains((1, 0)),
            pixels.contains((0, 1)),
            pixels.contains((1, 1)),
        ),
        '\n',
    ]);
}

/// Four quarter turns render any pixels exactly as the unturned canvas does.
pub proof fn lemma_four_quarter_turns(width: nat, height: nat, pixels: Set<(int, int)>)
    ensures
        RotatedRaster90::<RotatedRaster270<SimpleRaster>>::rendering(width, height, pixels)
            == SimpleRaster::rendering(width, height, pixels),
{
    let once = turned_in(pixels, width as int);
    let twice = turned_in(once, height as int);
    let thrice = turned_in(twice, width as int);
    let four = turned_in(thrice, height as int);
    assert(four =~= pixels);
}

/// The pixels on the stored canvas of a view turned by `quarters` quarter turns
/// clockwise, `width` by `height` pixels seen from outside: each view pixel
/// `(x, y)` moved where a direct rotation puts it.
pub open spec fn turned_directly(pixels: Set<(int, int)>, width: int, height: int, quarters: int) -> Set<
    (int, int),
> {
    Set::new(
        |r: (int, int)|
            if quarters == 1 {
                pixels.contains((width - 1 - r.1, r.0))
            } else if quarters == 2 {
                pixels.contains((width - 1 - r.0, height - 1 - r.1))
            } else {
                pixels.contains((r.1, height - 1 - r.0))
            },
    )
}

/// Nested quarter turns place pixels as a direct rotation by a quarter, a half
/// and three quarters of a turn would; the stored canvas of an odd number of
/// turns has the sides swapped.
pub proof fn lemma_nested_turns_are_direct(width: nat, height: nat, pixels: Set<(int, int)>)
    ensures
        RotatedRaster90::<SimpleRaster>::rendering(width, height, pixels) == SimpleRaster::rendering(
            height,
            width,
            turned_directly(pixels, width as int, height as int, 1),
        ),
        RotatedRaster180::<SimpleRaster>::rendering(width, height, pixels)
            == SimpleRaster::rendering(
            width,
            height,
            turned_directly(pixels, width as int, height as int, 2),
        ),
        RotatedRaster270::<SimpleRaster>::rendering(width, height, pixels)
            == SimpleRaster::rendering(
            height,
            width,
            turned_directly(pixels, width as int, height as int, 3),
        ),
{
    let once = turned_in(pixels, width as int);
    let twice = turned_in(once, height as int);
    let thrice = turned_in(twice, width as int);
    assert(once =~= turned_directly(pixels, width as int, height as int, 1));
    assert(twice =~= turned_directly(pixels, width as int, height as int, 2));
    assert(thrice =~= turned_directly(pixels, width as int, height as int, 3));
}

/// An empty canvas renders as spaces and line breaks only.
pub proof fn lemma_blank_art(width: nat, n: nat)
    ensures
        forall|i: int|
            0 <= i < block_rows(width, Set::<(int, int)>::empty(), n).len() ==> {
                let c = #[trigger] block_rows(width, Set::<(int, int)>::empty(), n)[i];
                c == ' ' || c == '\n'
            },
    decreases n,
{
    if n > 0 {
        lemma_blank_art(width, (n - 1) as nat);
        let prev = block_rows(width, Set::<(int, int)>::empty(), (n - 1) as nat);
        let row = block_row(width, Set::<(int, int)>::empty(), n - 1);
        assert forall|i: int| 0 <= i < row.len() implies row[i] == ' ' || row[i] == '\n' by {
        }
        assert forall|i: int|
            0 <= i < (prev + row).len() implies (prev + row)[i] == ' ' || (prev + row)[i]
            == '\n' by {
            if i >= prev.len() {
                assert((prev + row)[i] == row[i - prev.len()]);
            }
        }
    }
}

} // verus!
