use crate::pixels::lemma_pixel_index_bounds;
use crate::pixels::pixel_index;
use crate::pixels::PixelBuffer;
use crate::text::repeat;
use vstd::prelude::*;

verus! {

/// The brightness from which a pixel counts as lit.
pub const THRESHOLD: u8 = 64;

/// Both halves of the cell lit.
pub const FULL_BLOCK: char = '\u{2588}';

/// Only the upper half of the cell lit.
pub const UPPER_HALF_BLOCK: char = '\u{2580}';

/// Only the lower half of the cell lit.
pub const LOWER_HALF_BLOCK: char = '\u{2584}';

/// Neither half of the cell lit.
pub const BLANK: char = ' ';

/// Whether a pixel of the given brightness is lit.
pub open spec fn lit(px: u8) -> bool {
    px >= THRESHOLD
}

/// The character that shows a cell whose upper and lower pixel are lit or not.
pub open spec fn block_char(top: bool, bottom: bool) -> char {
    if top {
        if bottom {
            FULL_BLOCK
        } else {
            UPPER_HALF_BLOCK
        }
    } else {
        if bottom {
            LOWER_HALF_BLOCK
        } else {
            BLANK
        }
    }
}

/// The character for a cell, from the state of its two pixels.
pub fn block_for(top: bool, bottom: bool) -> (c: char)
    ensures
        c == block_char(top, bottom),
        top && bottom ==> c == FULL_BLOCK,
        top && !bottom ==> c == UPPER_HALF_BLOCK,
        !top && bottom ==> c == LOWER_HALF_BLOCK,
        !top && !bottom ==> c == BLANK,
{
    match (top, bottom) {
        (true, true) => FULL_BLOCK,
        (true, false) => UPPER_HALF_BLOCK,
        (false, true) => LOWER_HALF_BLOCK,
        (false, false) => BLANK,
    }
}

/// Every cell shows as one of the four block characters, and two cells show alike only
/// where their pixels agree.
pub proof fn lemma_block_char_total(top: bool, bottom: bool, top2: bool, bottom2: bool)
    ensures
        block_char(top, bottom) == FULL_BLOCK || block_char(top, bottom) == UPPER_HALF_BLOCK
            || block_char(top, bottom) == LOWER_HALF_BLOCK || block_char(top, bottom) == BLANK,
        block_char(top, bottom) == FULL_BLOCK <==> top && bottom,
        block_char(top, bottom) == UPPER_HALF_BLOCK <==> top && !bottom,
        block_char(top, bottom) == LOWER_HALF_BLOCK <==> !top && bottom,
        block_char(top, bottom) == BLANK <==> !top && !bottom,
        block_char(top, bottom) == block_char(top2, bottom2) <==> top == top2 && bottom == bottom2,
{
}

/// The number of text rows that show `height` rows of pixels.
pub open spec fn row_count(height: nat) -> nat {
    (height + 1) / 2
}

/// Whether pixel (`x`, `y`) is lit; a pixel below the last row is not.
pub open spec fn pixel_lit(data: Seq<u8>, width: nat, height: nat, x: int, y: int) -> bool {
    y < height && lit(data[pixel_index(width as int, x, y)])
}

/// The character in column `x` of text row `row`: it shows pixel rows `2 * row` and
/// `2 * row + 1`.
pub open spec fn cell(data: Seq<u8>, width: nat, height: nat, x: int, row: int) -> char {
    block_char(
        pixel_lit(data, width, height, x, 2 * row),
        pixel_lit(data, width, height, x, 2 * row + 1),
    )
}

/// Text row `row`: one character for each column, then a line feed.
pub open spec fn row_text(data: Seq<u8>, width: nat, height: nat, row: int) -> Seq<char> {
    Seq::new(width, |x: int| cell(data, width, height, x, row)).push('\n')
}

/// The first `count` text rows, one after the other.
pub open spec fn rows_text(data: Seq<u8>, width: nat, height: nat, count: nat) -> Seq<char>
    decreases count,
{
    if count == 0 {
        Seq::empty()
    } else {
        rows_text(data, width, height, (count - 1) as nat) + row_text(
            data,
            width,
            height,
            count - 1,
        )
    }
}

/// The half-block picture of a pixel buffer.
pub open spec fn quantized(data: Seq<u8>, width: nat, height: nat) -> Seq<char> {
    rows_text(data, width, height, row_count(height))
}

/// The first `count` text rows hold `width` characters and a line feed each.
pub proof fn lemma_rows_text_len(data: Seq<u8>, width: nat, height: nat, count: nat)
    ensures
        rows_text(data, width, height, count).len() == count * (width + 1),
    decreases count,
{
    if count > 0 {
        lemma_rows_text_len(data, width, height, (count - 1) as nat);
        assert(row_text(data, width, height, count - 1).len() == width + 1);
        assert(count * (width + 1) == (count - 1) * (width + 1) + (width + 1)) by (nonlinear_arith)
            requires
                count > 0,
        ;
    } else {
        assert(rows_text(data, width, height, count).len() == 0);
        assert(count * (width + 1) == 0) by (nonlinear_arith)
            requires
                count == 0,
        ;
    }
}

/// The picture of a buffer has half as many rows as the buffer, rounded up, of `width`
/// characters and a line feed each.
pub proof fn lemma_quantized_len(data: Seq<u8>, width: nat, height: nat)
    ensures
        quantized(data, width, height).len() == row_count(height) * (width + 1),
{
    lemma_rows_text_len(data, width, height, row_count(height));
}

/// `count` rows of `width` times the character `c`, each closed by a line feed.
pub open spec fn uniform_rows(c: char, width: nat, count: nat) -> Seq<char>
    decreases count,
{
    if count == 0 {
        Seq::empty()
    } else {
        uniform_rows(c, width, (count - 1) as nat) + repeat(c, width).push('\n')
    }
}

/// Turns a pixel buffer into rows of half-block characters.
pub fn quantize(buffer: &PixelBuffer) -> (art: String)
    ensures
        art@ == quantized(buffer.data(), buffer.cols(), buffer.rows()),
{
    let width = buffer.width();
    let height = buffer.height();
    let rows = height / 2 + height % 2;
    let mut art = String::new();
    let mut row: usize = 0;
    while row < rows
        invariant
            row <= rows,
            rows == row_count(height as nat),
            width == buffer.cols(),
            height == buffer.rows(),
            art@ == rows_text(buffer.data(), width as nat, height as nat, row as nat),
        decreases rows - row,
    {
        let top_y = row * 2;
        let ghost before = art@;
        let mut x: usize = 0;
        while x < width
            invariant
                x <= width,
                row < rows,
                rows == row_count(height as nat),
                top_y == row * 2,
                width == buffer.cols(),
                height == buffer.rows(),
                art@ == before + Seq::new(
                    x as nat,
                    |i: int| cell(buffer.data(), width as nat, height as nat, i, row as int),
                ),
            decreases width - x,
        {
            let top_on = buffer.get(x, top_y) >= THRESHOLD;
            let bottom_on = top_y + 1 < height && buffer.get(x, top_y + 1) >= THRESHOLD;
            art.push(block_for(top_on, bottom_on));
            x += 1;
        }
        art.push('\n');
        row += 1;
    }
    art
}

/// A buffer of background pixels alone shows as rows of blanks.
pub proof fn lemma_background_is_blank(data: Seq<u8>, width: nat, height: nat)
    requires
        data.len() == width * height,
        forall|i: int| 0 <= i < data.len() ==> data[i] == 0,
    ensures
        quantized(data, width, height) == uniform_rows(BLANK, width, row_count(height)),
{
    lemma_uniform(data, width, height, BLANK, row_count(height));
}

/// A buffer of lit pixels alone, with an even number of rows, shows as rows of full
/// blocks.
pub proof fn lemma_foreground_is_full(data: Seq<u8>, width: nat, height: nat)
    requires
        data.len() == width * height,
        height % 2 == 0,
        forall|i: int| 0 <= i < data.len() ==> data[i] >= THRESHOLD,
    ensures
        quantized(data, width, height) == uniform_rows(FULL_BLOCK, width, row_count(height)),
{
    lemma_uniform(data, width, height, FULL_BLOCK, row_count(height));
}

/// The first `count` rows of a buffer whose pixels are all background show as rows of
/// blanks; those of a buffer of an even number of rows whose pixels are all lit, as
/// rows of full blocks.
proof fn lemma_uniform(data: Seq<u8>, width: nat, height: nat, c: char, count: nat)
    requires
        data.len() == width * height,
        count <= row_count(height),
        (c == BLANK && forall|i: int| 0 <= i < data.len() ==> !lit(#[trigger] data[i])) || (c
            == FULL_BLOCK && height % 2 == 0 && forall|i: int|
            0 <= i < data.len() ==> lit(#[trigger] data[i])),
    ensures
        rows_text(data, width, height, count) == uniform_rows(c, width, count),
    decreases count,
{
    if count > 0 {
        lemma_uniform(data, width, height, c, (count - 1) as nat);
        let row = count - 1;
        assert forall|x: int| 0 <= x < width implies cell(data, width, height, x, row) == c by {
            lemma_pixel_index_bounds(width as int, height as int, x, 2 * row);
            if 2 * row + 1 < height {
                lemma_pixel_index_bounds(width as int, height as int, x, 2 * row + 1);
            }
        }
        assert(Seq::new(width, |x: int| cell(data, width, height, x, row)) =~= repeat(c, width));
    }
}

} // verus!
