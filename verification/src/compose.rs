use crate::pixels::blank_pixels;
use crate::pixels::lemma_pixel_index_bounds;
use crate::pixels::lemma_pixel_index_injective;
use crate::pixels::pixel_index;
use crate::pixels::PixelBuffer;
use vstd::prelude::*;

verus! {

/// One rasterized character: its coverage bitmap, row by row from the top, the bitmap's
/// size, and how far the cursor moves after it.
pub struct Glyph {
    bitmap: Vec<u8>,
    width: usize,
    height: usize,
    advance: usize,
}

/// What a glyph holds, as plain values.
pub ghost struct GlyphView {
    pub bitmap: Seq<u8>,
    pub width: nat,
    pub height: nat,
    pub advance: nat,
}

impl View for Glyph {
    type V = GlyphView;

    closed spec fn view(&self) -> GlyphView {
        GlyphView {
            bitmap: self.bitmap@,
            width: self.width as nat,
            height: self.height as nat,
            advance: self.advance as nat,
        }
    }
}

impl Glyph {
    #[verifier::type_invariant]
    spec fn well_formed(self) -> bool {
        self.bitmap@.len() == self.width * self.height
    }

    /// A glyph over the given bitmap, where that has one byte for each pixel.
    pub fn new(
        bitmap: Vec<u8>,
        width: usize,
        height: usize,
        advance: usize,
    ) -> (glyph: Option<Self>)
        ensures
            glyph is Some <==> bitmap@.len() == width * height,
            glyph matches Some(g) ==> g@ == (GlyphView {
                bitmap: bitmap@,
                width: width as nat,
                height: height as nat,
                advance: advance as nat,
            }),
    {
        let len = bitmap.len();
        match width.checked_mul(height) {
            Some(size) => {
                if len == size {
                    Some(Glyph { bitmap, width, height, advance })
                } else {
                    None
                }
            },
            None => None,
        }
    }

    /// A glyph over a bitmap that is known to have one byte for each pixel.
    pub(crate) fn from_parts(
        bitmap: Vec<u8>,
        width: usize,
        height: usize,
        advance: usize,
    ) -> (glyph: Self)
        requires
            bitmap@.len() == width * height,
        ensures
            glyph@ == (GlyphView {
                bitmap: bitmap@,
                width: width as nat,
                height: height as nat,
                advance: advance as nat,
            }),
    {
        Glyph { bitmap, width, height, advance }
    }
}

/// The views of the glyphs of a line.
pub open spec fn glyph_views(glyphs: Seq<Glyph>) -> Seq<GlyphView> {
    glyphs.map_values(|g: Glyph| g@)
}

/// Where the cursor stands before glyph `n`: the advances of the glyphs before it, added
/// up.
pub open spec fn x_offset(glyphs: Seq<GlyphView>, n: int) -> int
    decreases n,
{
    if n <= 0 {
        0
    } else {
        x_offset(glyphs, n - 1) + glyphs[n - 1].advance
    }
}

/// The height of the tallest of the first `n` glyphs.
pub open spec fn max_height(glyphs: Seq<GlyphView>, n: int) -> nat
    decreases n,
{
    if n <= 0 {
        0
    } else if glyphs[n - 1].height > max_height(glyphs, n - 1) {
        glyphs[n - 1].height
    } else {
        max_height(glyphs, n - 1)
    }
}

/// The width of a line's picture: all advances together, but no more than `max_width`.
pub open spec fn render_width(glyphs: Seq<GlyphView>, max_width: nat) -> nat {
    if x_offset(glyphs, glyphs.len() as int) < max_width {
        x_offset(glyphs, glyphs.len() as int) as nat
    } else {
        max_width
    }
}

/// The height of a line's picture: that of its tallest glyph.
pub open spec fn render_height(glyphs: Seq<GlyphView>) -> nat {
    max_height(glyphs, glyphs.len() as int)
}

/// Whether glyph `k` is drawn over pixel (`x`, `y`) of the line's picture. A glyph is
/// drawn where the cursor stands before the picture's right edge; it stands on the
/// picture's bottom row.
pub open spec fn covers(glyphs: Seq<GlyphView>, max_width: nat, k: int, x: int, y: int) -> bool {
    let g = glyphs[k];
    let left = x_offset(glyphs, k);
    let top = render_height(glyphs) - g.height;
    &&& left < render_width(glyphs, max_width)
    &&& left <= x < left + g.width
    &&& top <= y < top + g.height
}

/// The last of the first `n` glyphs that is drawn over pixel (`x`, `y`).
pub open spec fn top_glyph(
    glyphs: Seq<GlyphView>,
    max_width: nat,
    x: int,
    y: int,
    n: int,
) -> Option<int>
    decreases n,
{
    if n <= 0 {
        None
    } else if covers(glyphs, max_width, n - 1, x, y) {
        Some(n - 1)
    } else {
        top_glyph(glyphs, max_width, x, y, n - 1)
    }
}

/// Pixel (`x`, `y`) of the picture once the first `n` glyphs are drawn: the byte of the
/// last glyph drawn over it, or background.
pub open spec fn pixel_after(glyphs: Seq<GlyphView>, max_width: nat, x: int, y: int, n: int) -> u8 {
    match top_glyph(glyphs, max_width, x, y, n) {
        Some(k) => {
            let g = glyphs[k];
            g.bitmap[pixel_index(
                g.width as int,
                x - x_offset(glyphs, k),
                y - (render_height(glyphs) - g.height),
            )]
        },
        None => 0,
    }
}

/// Pixel (`x`, `y`) of a line's picture.
pub open spec fn composed_pixel(glyphs: Seq<GlyphView>, max_width: nat, x: int, y: int) -> u8 {
    pixel_after(glyphs, max_width, x, y, glyphs.len() as int)
}

/// The bytes of a line's picture, row by row.
pub open spec fn composed_data(glyphs: Seq<GlyphView>, max_width: nat) -> Seq<u8> {
    let width = render_width(glyphs, max_width);
    Seq::new(
        width * render_height(glyphs),
        |i: int| composed_pixel(glyphs, max_width, i % (width as int), i / (width as int)),
    )
}

/// Whether a line has a picture: it has none where no glyph has height or no glyph moves
/// the cursor.
pub open spec fn has_picture(glyphs: Seq<GlyphView>) -> bool {
    render_height(glyphs) != 0 && x_offset(glyphs, glyphs.len() as int) != 0
}

/// The byte at a pixel's place in a line's picture is that pixel.
pub proof fn lemma_composed_data_at(glyphs: Seq<GlyphView>, max_width: nat, x: int, y: int)
    requires
        0 <= x < render_width(glyphs, max_width),
        0 <= y < render_height(glyphs),
    ensures
        0 <= pixel_index(render_width(glyphs, max_width) as int, x, y) < composed_data(
            glyphs,
            max_width,
        ).len(),
        composed_data(glyphs, max_width)[pixel_index(render_width(glyphs, max_width) as int, x, y)]
            == composed_pixel(glyphs, max_width, x, y),
{
    let width = render_width(glyphs, max_width) as int;
    let height = render_height(glyphs) as int;
    lemma_pixel_index_bounds(width, height, x, y);
    let i = pixel_index(width, x, y);
    vstd::arithmetic::div_mod::lemma_fundamental_div_mod_converse(i, width, y, x);
}

/// The cursor never moves left.
pub proof fn lemma_x_offset_monotone(glyphs: Seq<GlyphView>, a: int, b: int)
    requires
        0 <= a <= b,
    ensures
        0 <= x_offset(glyphs, a) <= x_offset(glyphs, b),
    decreases b,
{
    if a < b {
        lemma_x_offset_monotone(glyphs, a, b - 1);
    } else if a > 0 {
        lemma_x_offset_monotone(glyphs, a - 1, a - 1);
    }
}

/// No glyph is taller than the tallest.
pub proof fn lemma_max_height_bounds(glyphs: Seq<GlyphView>, k: int, n: int)
    requires
        0 <= k < n,
    ensures
        glyphs[k].height <= max_height(glyphs, n),
    decreases n,
{
    if k < n - 1 {
        lemma_max_height_bounds(glyphs, k, n - 1);
    }
}

/// Glyphs at which the cursor has passed the right edge leave the picture as it is.
pub proof fn lemma_undrawn_glyphs(
    glyphs: Seq<GlyphView>,
    max_width: nat,
    x: int,
    y: int,
    stop: int,
    n: int,
)
    requires
        0 <= stop <= n,
        x_offset(glyphs, stop) >= render_width(glyphs, max_width),
    ensures
        pixel_after(glyphs, max_width, x, y, n) == pixel_after(glyphs, max_width, x, y, stop),
    decreases n,
{
    if stop < n {
        lemma_x_offset_monotone(glyphs, stop, n - 1);
        lemma_undrawn_glyphs(glyphs, max_width, x, y, stop, n - 1);
    }
}

/// Pixel (`x`, `y`) of a picture into which a glyph is being copied, its top left
/// corner at (`left`, `top`): the glyph's byte where the pixel lies in one of the
/// glyph's first `row` rows, or in row `row` left of column `col`; else what the
/// picture held before.
pub open spec fn painted(
    before: Seq<u8>,
    width: int,
    glyph: GlyphView,
    left: int,
    top: int,
    row: int,
    col: int,
    x: int,
    y: int,
) -> u8 {
    let gx = x - left;
    let gy = y - top;
    if 0 <= gx < glyph.width && 0 <= gy && (gy < row || (gy == row && gx < col)) {
        glyph.bitmap[pixel_index(glyph.width as int, gx, gy)]
    } else {
        before[pixel_index(width, x, y)]
    }
}

/// Copies a glyph's bitmap into a picture, its top left corner at (`left`, `top`). What
/// falls right of the picture is dropped.
fn draw_glyph(
    pixels: &mut Vec<u8>,
    width: usize,
    height: usize,
    glyph: &Glyph,
    left: usize,
    top: usize,
)
    requires
        old(pixels)@.len() == width * height,
        left < width,
        top + glyph@.height <= height,
    ensures
        final(pixels)@.len() == old(pixels)@.len(),
        forall|x: int, y: int|
            0 <= x < width && 0 <= y < height ==> final(pixels)@[#[trigger] pixel_index(
                width as int,
                x,
                y,
            )] == painted(
                old(pixels)@,
                width as int,
                glyph@,
                left as int,
                top as int,
                glyph@.height as int,
                0,
                x,
                y,
            ),
{
    proof {
        use_type_invariant(glyph);
    }
    let rows = glyph.height;
    let cols = if glyph.width < width - left {
        glyph.width
    } else {
        width - left
    };
    assert(glyph.width * rows <= usize::MAX) by {
        assert(glyph.bitmap.len() == glyph.bitmap@.len());
    }
    assert(width * height <= usize::MAX) by {
        assert(pixels.len() == pixels@.len());
    }
    let mut gy: usize = 0;
    while gy < rows
        invariant
            gy <= rows,
            rows == glyph@.height,
            glyph.bitmap@.len() == glyph.width * rows,
            glyph.width * rows <= usize::MAX,
            width * height <= usize::MAX,
            left < width,
            top + rows <= height,
            cols == if glyph.width < width - left {
                glyph.width
            } else {
                (width - left) as usize
            },
            pixels@.len() == width * height,
            pixels@.len() == old(pixels)@.len(),
            forall|x: int, y: int|
                0 <= x < width && 0 <= y < height ==> pixels@[#[trigger] pixel_index(
                    width as int,
                    x,
                    y,
                )] == painted(
                    old(pixels)@,
                    width as int,
                    glyph@,
                    left as int,
                    top as int,
                    gy as int,
                    0,
                    x,
                    y,
                ),
        decreases rows - gy,
    {
        let mut gx: usize = 0;
        while gx < cols
            invariant
                gx <= cols,
                gy < rows,
                rows == glyph@.height,
                glyph.bitmap@.len() == glyph.width * rows,
                glyph.width * rows <= usize::MAX,
                width * height <= usize::MAX,
                left < width,
                top + rows <= height,
                cols == if glyph.width < width - left {
                    glyph.width
                } else {
                    (width - left) as usize
                },
                pixels@.len() == width * height,
                pixels@.len() == old(pixels)@.len(),
                forall|x: int, y: int|
                    0 <= x < width && 0 <= y < height ==> pixels@[#[trigger] pixel_index(
                        width as int,
                        x,
                        y,
                    )] == painted(
                        old(pixels)@,
                        width as int,
                        glyph@,
                        left as int,
                        top as int,
                        gy as int,
                        gx as int,
                        x,
                        y,
                    ),
            decreases cols - gx,
        {
            proof {
                lemma_pixel_index_bounds(glyph.width as int, rows as int, gx as int, gy as int);
                lemma_pixel_index_bounds(width as int, height as int, left + gx, top + gy);
            }
            let value = glyph.bitmap[gy * glyph.width + gx];
            let target = (top + gy) * width + left + gx;
            pixels.set(target, value);
            assert forall|x: int, y: int| 0 <= x < width && 0 <= y < height implies pixels@[
                #[trigger] pixel_index(width as int, x, y)
            ] == painted(
                old(pixels)@,
                width as int,
                glyph@,
                left as int,
                top as int,
                gy as int,
                gx + 1,
                x,
                y,
            ) by {
                lemma_pixel_index_bounds(width as int, height as int, x, y);
                if pixel_index(width as int, x, y) == target {
                    lemma_pixel_index_injective(width as int, x, y, left + gx, top + gy);
                }
            }
            gx += 1;
        }
        gy += 1;
    }
}

/// Draws a line of glyphs into a picture. Each glyph stands where the advances of those
/// before it put the cursor, on the bottom row. The picture is as high as the tallest
/// glyph and as wide as all advances together, but no wider than `max_width`; glyphs at
/// which the cursor has reached the right edge are left out. There is no picture where
/// no glyph has height or none moves the cursor.
pub fn compose_line(glyphs: &Vec<Glyph>, max_width: usize) -> (picture: Option<PixelBuffer>)
    ensures
        picture is Some <==> has_picture(glyph_views(glyphs@)),
        picture matches Some(p) ==> {
            &&& p.cols() == render_width(glyph_views(glyphs@), max_width as nat)
            &&& p.rows() == render_height(glyph_views(glyphs@))
            &&& p.data() == composed_data(glyph_views(glyphs@), max_width as nat)
        },
{
    let ghost views = glyph_views(glyphs@);
    let mut total: u128 = 0;
    let mut tallest: usize = 0;
    let mut i: usize = 0;
    while i < glyphs.len()
        invariant
            i <= glyphs.len(),
            views == glyph_views(glyphs@),
            total == x_offset(views, i as int),
            total <= i * 0xFFFF_FFFF_FFFF_FFFF,
            tallest == max_height(views, i as int),
        decreases glyphs.len() - i,
    {
        total = total + glyphs[i].advance as u128;
        if glyphs[i].height > tallest {
            tallest = glyphs[i].height;
        }
        i += 1;
    }
    if tallest == 0 || total == 0 {
        return None;
    }
    let width: usize = if total < max_width as u128 {
        total as usize
    } else {
        max_width
    };
    let mut pixels = blank_pixels(width, tallest);
    let mut cursor: u128 = 0;
    let mut k: usize = 0;
    assert forall|x: int, y: int| 0 <= x < width && 0 <= y < tallest implies pixels@[
        #[trigger] pixel_index(width as int, x, y)
    ] == 0 by {
        lemma_pixel_index_bounds(width as int, tallest as int, x, y);
    }
    while k < glyphs.len() && cursor < width as u128
        invariant
            k <= glyphs.len(),
            views == glyph_views(glyphs@),
            width == render_width(views, max_width as nat),
            tallest == render_height(views),
            cursor == x_offset(views, k as int),
            pixels@.len() == width * tallest,
            forall|x: int, y: int|
                0 <= x < width && 0 <= y < tallest ==> pixels@[#[trigger] pixel_index(
                    width as int,
                    x,
                    y,
                )] == pixel_after(views, max_width as nat, x, y, k as int),
        decreases glyphs.len() - k,
    {
        let glyph = &glyphs[k];
        proof {
            lemma_max_height_bounds(views, k as int, glyphs.len() as int);
        }
        draw_glyph(&mut pixels, width, tallest, glyph, cursor as usize, tallest - glyph.height);
        cursor = cursor + glyph.advance as u128;
        k += 1;
    }
    proof {
        let data = composed_data(views, max_width as nat);
        assert forall|j: int| 0 <= j < pixels@.len() implies pixels@[j] == data[j] by {
            let x = j % (width as int);
            let y = j / (width as int);
            assert(width > 0) by (nonlinear_arith)
                requires
                    0 <= j < width * tallest,
            ;
            vstd::arithmetic::div_mod::lemma_fundamental_div_mod(j, width as int);
            vstd::arithmetic::div_mod::lemma_mod_bound(j, width as int);
            vstd::arithmetic::div_mod::lemma_multiply_divide_lt(j, width as int, tallest as int);
            vstd::arithmetic::div_mod::lemma_div_pos_is_pos(j, width as int);
            assert(pixel_index(width as int, x, y) == j) by (nonlinear_arith)
                requires
                    j == width * y + x,
            ;
            if k < glyphs.len() {
                lemma_undrawn_glyphs(views, max_width as nat, x, y, k as int, glyphs.len() as int);
            }
        }
        assert(pixels@ =~= data);
    }
    Some(PixelBuffer::from_parts(pixels, width, tallest))
}

} // verus!
