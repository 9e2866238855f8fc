use crate::blocks::BLANK;
use crate::blocks::FULL_BLOCK;
use crate::blocks::lemma_quantized_len;
use crate::blocks::quantize;
use crate::blocks::quantized;
use crate::blocks::row_count;
use crate::compose::compose_line;
use crate::compose::composed_data;
use crate::compose::Glyph;
use crate::compose::glyph_views;
use crate::compose::GlyphView;
use crate::compose::has_picture;
use crate::compose::render_height;
use crate::compose::render_width;
use crate::font::advance_of;
use crate::font::FontRenderer;
use crate::font::glyph_of;
use crate::markdown::contents;
use crate::markdown::MarkdownElement;
use crate::text::chars_of;
use crate::text::lines;
use crate::text::push_chars;
use crate::text::push_repeat;
use crate::text::repeat;
use crate::text::split_lines;
use crate::text::views;
use crate::wrap::wrap_chars;
use crate::wrap::wrapped;
use vstd::prelude::*;

verus! {

/// The size, in whole pixels, at which text is drawn.
pub const PIXEL_SIZE: u16 = 8;

/// Draws text as half-block pictures, wrapped into a width in pixels.
pub struct TerminalRenderer {
    width: usize,
    pixel_size: u16,
}

/// The glyph that stands for a character in a line: its bitmap and its advance, as the
/// font gives them.
pub open spec fn line_glyph(font: Option<Seq<u8>>, ch: char, size: u16) -> GlyphView {
    let raster = glyph_of(font, ch, size);
    GlyphView {
        bitmap: raster.0,
        width: raster.1 as nat,
        height: raster.2 as nat,
        advance: advance_of(font, ch, size) as nat,
    }
}

/// The glyphs of a line, one for each character.
pub open spec fn line_glyphs(font: Option<Seq<u8>>, text: Seq<char>, size: u16) -> Seq<GlyphView> {
    Seq::new(text.len(), |i: int| line_glyph(font, text[i], size))
}

/// A line as it is shown: the half-block picture of its glyphs, or the text itself
/// where the glyphs give no picture.
pub open spec fn line_art(
    font: Option<Seq<u8>>,
    text: Seq<char>,
    size: u16,
    max_width: usize,
) -> Seq<char> {
    let glyphs = line_glyphs(font, text, size);
    if has_picture(glyphs) {
        quantized(
            composed_data(glyphs, max_width as nat),
            render_width(glyphs, max_width as nat),
            render_height(glyphs),
        )
    } else {
        text
    }
}

/// A line that has a picture is shown as half as many rows as its tallest glyph is
/// high, rounded up; each row holds a line feed and as many characters as the advances
/// of its glyphs add up to, but no more than `max_width`. Any other line is shown as
/// it is.
pub proof fn lemma_line_art_shape(
    font: Option<Seq<u8>>,
    text: Seq<char>,
    size: u16,
    max_width: usize,
)
    ensures
        ({
            let glyphs = line_glyphs(font, text, size);
            let rows = row_count(render_height(glyphs));
            let columns = render_width(glyphs, max_width as nat);
            if has_picture(glyphs) {
                line_art(font, text, size, max_width).len() == rows * (columns + 1)
            } else {
                line_art(font, text, size, max_width) == text
            }
        }),
{
    let glyphs = line_glyphs(font, text, size);
    lemma_quantized_len(
        composed_data(glyphs, max_width as nat),
        render_width(glyphs, max_width as nat),
        render_height(glyphs),
    );
}

/// The first `count` lines as they are shown, one after the other.
pub open spec fn lines_art(
    font: Option<Seq<u8>>,
    lines: Seq<Seq<char>>,
    size: u16,
    max_width: usize,
    count: int,
) -> Seq<char>
    decreases count,
{
    if count <= 0 {
        Seq::empty()
    } else {
        lines_art(font, lines, size, max_width, count - 1) + line_art(
            font,
            lines[count - 1],
            size,
            max_width,
        )
    }
}

/// The advance of each character of a text.
pub open spec fn char_advances(font: Option<Seq<u8>>, text: Seq<char>, size: u16) -> Seq<usize> {
    Seq::new(text.len(), |i: int| advance_of(font, text[i], size))
}

/// The lines into which a text is wrapped for a font.
pub open spec fn wrapped_lines(
    font: Option<Seq<u8>>,
    text: Seq<char>,
    size: u16,
    max_width: usize,
) -> Seq<Seq<char>> {
    wrapped(text, char_advances(font, text, size), advance_of(font, ' ', size), max_width)
}

/// A text as it is shown: wrapped into lines, each line shown as a picture or, where
/// its glyphs give none, as it is. Without a font the advances are those that stand in
/// for a font's, and every line is shown as it is.
pub open spec fn text_art(
    font: Option<Seq<u8>>,
    text: Seq<char>,
    size: u16,
    max_width: usize,
) -> Seq<char> {
    let lines = wrapped_lines(font, text, size, max_width);
    lines_art(font, lines, size, max_width, lines.len() as int)
}

/// The upper border of a code block: 79 characters and a line feed.
pub open spec fn code_top() -> Seq<char> {
    seq!['\u{250c}', '\u{2500}', ' ', 'c', 'o', 'd', 'e', ' '] + repeat('\u{2500}', 70)
        + seq!['\u{2510}', '\n']
}

/// The lower border of a code block: 79 characters and a line feed.
pub open spec fn code_bottom() -> Seq<char> {
    seq!['\u{2514}'] + repeat('\u{2500}', 77) + seq!['\u{2518}', '\n']
}

/// A code block as it is shown: each of its lines drawn unwrapped, between the two
/// borders.
pub open spec fn code_art(
    font: Option<Seq<u8>>,
    code: Seq<char>,
    size: u16,
    max_width: usize,
) -> Seq<char> {
    let code_lines = split_lines(code);
    code_top() + lines_art(font, code_lines, size, max_width, code_lines.len() as int)
        + code_bottom()
}

/// What stands before each line of a quotation.
pub open spec fn quote_bar() -> Seq<char> {
    seq!['\u{2502}', ' ']
}

/// The first `count` lines, each behind the quote bar and closed by a line feed.
pub open spec fn quoted(lines: Seq<Seq<char>>, count: int) -> Seq<char>
    decreases count,
{
    if count <= 0 {
        Seq::empty()
    } else {
        quoted(lines, count - 1) + quote_bar() + lines[count - 1] + seq!['\n']
    }
}

/// A quotation as it is shown: each line of the shown text behind the quote bar.
pub open spec fn quote_art(
    font: Option<Seq<u8>>,
    text: Seq<char>,
    size: u16,
    max_width: usize,
) -> Seq<char> {
    let shown = split_lines(text_art(font, text, size, max_width));
    quoted(shown, shown.len() as int)
}

/// The text that is drawn as the bullet of a list item.
pub open spec fn bullet() -> Seq<char> {
    seq!['\u{2022}', ' ']
}

/// The width of the bullet column where the bullet has no line.
pub const DEFAULT_BULLET_WIDTH: usize = 2;

/// A line filled up with spaces to `width` characters; a longer line stays as it is.
pub open spec fn padded(line: Seq<char>, width: nat) -> Seq<char> {
    if line.len() < width {
        line + repeat(' ', (width - line.len()) as nat)
    } else {
        line
    }
}

/// Line `i`, or an empty line where there is none.
pub open spec fn line_or_blank(lines: Seq<Seq<char>>, i: int) -> Seq<char> {
    if 0 <= i < lines.len() {
        lines[i]
    } else {
        Seq::empty()
    }
}

/// The first `count` rows of a list item: in each the bullet's line, filled up to the
/// bullet column's width, then the content's line and a line feed.
pub open spec fn item_rows(
    bullet_lines: Seq<Seq<char>>,
    content_lines: Seq<Seq<char>>,
    width: nat,
    count: int,
) -> Seq<char>
    decreases count,
{
    if count <= 0 {
        Seq::empty()
    } else {
        item_rows(bullet_lines, content_lines, width, count - 1) + padded(
            line_or_blank(bullet_lines, count - 1),
            width,
        ) + line_or_blank(content_lines, count - 1) + seq!['\n']
    }
}

/// The width of the bullet column: the number of characters of the bullet's first line.
pub open spec fn bullet_width(bullet_lines: Seq<Seq<char>>) -> nat {
    if bullet_lines.len() > 0 {
        bullet_lines[0].len()
    } else {
        DEFAULT_BULLET_WIDTH as nat
    }
}

/// The rows of a list item from the shown bullet and the shown content: as many rows
/// as the longer of the two has lines.
pub open spec fn item_layout(bullet_art: Seq<char>, content_art: Seq<char>) -> Seq<char> {
    let bullet_lines = split_lines(bullet_art);
    let content_lines = split_lines(content_art);
    let count = if bullet_lines.len() > content_lines.len() {
        bullet_lines.len()
    } else {
        content_lines.len()
    };
    item_rows(bullet_lines, content_lines, bullet_width(bullet_lines), count as int)
}

/// A list item as it is shown: the bullet drawn as a line, the content drawn as a text,
/// side by side.
pub open spec fn item_art(
    font: Option<Seq<u8>>,
    item: Seq<char>,
    size: u16,
    max_width: usize,
) -> Seq<char> {
    item_layout(line_art(font, bullet(), size, max_width), text_art(font, item, size, max_width))
}

/// The first `count` items of a list as they are shown, one after the other.
pub open spec fn list_art(
    font: Option<Seq<u8>>,
    items: Seq<Seq<char>>,
    size: u16,
    max_width: usize,
    count: int,
) -> Seq<char>
    decreases count,
{
    if count <= 0 {
        Seq::empty()
    } else {
        list_art(font, items, size, max_width, count - 1) + item_art(
            font,
            items[count - 1],
            size,
            max_width,
        )
    }
}

/// The characters whose bitmaps are made for a line: with a font, each character
/// of the line.
pub open spec fn line_chars(font: Option<Seq<u8>>, line: Seq<char>) -> Set<char> {
    if font is Some {
        line.to_set()
    } else {
        Set::empty()
    }
}

/// The characters whose bitmaps are made for the first `count` lines.
pub open spec fn lines_chars(font: Option<Seq<u8>>, lines: Seq<Seq<char>>, count: int) -> Set<char>
    decreases count,
{
    if count <= 0 {
        Set::empty()
    } else {
        lines_chars(font, lines, count - 1).union(line_chars(font, lines[count - 1]))
    }
}

/// The characters whose bitmaps are made for a text: those of the lines into which it
/// is wrapped.
pub open spec fn text_chars(
    font: Option<Seq<u8>>,
    text: Seq<char>,
    size: u16,
    max_width: usize,
) -> Set<char> {
    let lines = wrapped_lines(font, text, size, max_width);
    lines_chars(font, lines, lines.len() as int)
}

/// The characters whose bitmaps are made for a code block: those of its lines.
pub open spec fn code_chars(font: Option<Seq<u8>>, code: Seq<char>) -> Set<char> {
    let code_lines = split_lines(code);
    lines_chars(font, code_lines, code_lines.len() as int)
}

/// The characters whose bitmaps are made for a list item: those of the bullet and of
/// the content.
pub open spec fn item_chars(
    font: Option<Seq<u8>>,
    item: Seq<char>,
    size: u16,
    max_width: usize,
) -> Set<char> {
    line_chars(font, bullet()).union(text_chars(font, item, size, max_width))
}

/// The characters whose bitmaps are made for the first `count` items of a list.
pub open spec fn list_chars(
    font: Option<Seq<u8>>,
    items: Seq<Seq<char>>,
    size: u16,
    max_width: usize,
    count: int,
) -> Set<char>
    decreases count,
{
    if count <= 0 {
        Set::empty()
    } else {
        list_chars(font, items, size, max_width, count - 1).union(
            item_chars(font, items[count - 1], size, max_width),
        )
    }
}

/// Row `y` of a checkerboard: a full block where column and row add up to an even
/// number, a blank elsewhere, then a line feed.
pub open spec fn checker_row(width: nat, y: int) -> Seq<char> {
    Seq::new(
        width,
        |x: int|
            if (x + y) % 2 == 0 {
                FULL_BLOCK
            } else {
                BLANK
            },
    ).push('\n')
}

/// The first `count` rows of a checkerboard.
pub open spec fn checkerboard(width: nat, count: nat) -> Seq<char>
    decreases count,
{
    if count == 0 {
        Seq::empty()
    } else {
        checkerboard(width, (count - 1) as nat) + checker_row(width, count - 1)
    }
}

impl TerminalRenderer {
    /// The width in pixels into which text is wrapped and to which pictures are cut.
    pub closed spec fn max_width(&self) -> usize {
        self.width
    }

    /// The size in whole pixels at which glyphs are drawn.
    pub closed spec fn size(&self) -> u16 {
        self.pixel_size
    }

    /// A renderer for the given width in pixels.
    pub fn new(width: usize) -> (renderer: Self)
        ensures
            renderer.max_width() == width,
            renderer.size() == PIXEL_SIZE,
    {
        TerminalRenderer { width, pixel_size: PIXEL_SIZE }
    }

    /// Appends one line as it is shown to `out`.
    fn push_line(&self, line: &Vec<char>, font_renderer: &mut FontRenderer, out: &mut String)
        requires
            old(font_renderer).wf(),
        ensures
            final(font_renderer).wf(),
            final(font_renderer).font_data() == old(font_renderer).font_data(),
            final(font_renderer).keeps(
                old(font_renderer),
                self.size(),
                line_chars(old(font_renderer).font_data(), line@),
            ),
            final(out)@ == old(out)@ + line_art(
                old(font_renderer).font_data(),
                line@,
                self.size(),
                self.max_width(),
            ),
    {
        let size = self.pixel_size;
        let ghost font = font_renderer.font_data();
        let mut glyphs: Vec<Glyph> = Vec::new();
        let mut i: usize = 0;
        assert(line@.take(0).to_set() =~= Set::<char>::empty());
        while i < line.len()
            invariant
                i <= line.len(),
                font_renderer.wf(),
                font_renderer.font_data() == font,
                font == old(font_renderer).font_data(),
                font_renderer.keeps(
                    old(font_renderer),
                    size,
                    line_chars(font, line@.take(i as int)),
                ),
                glyph_views(glyphs@) == line_glyphs(font, line@, size).take(i as int),
            decreases line.len() - i,
        {
            let ch = line[i];
            proof {
                line@.take(i as int).lemma_push_to_set_commute(ch);
                assert(line@.take(i + 1) =~= line@.take(i as int).push(ch));
                let seen = line@.take(i as int).to_set();
                assert(seen.insert(ch) =~= seen.union(set![ch]));
            }
            let (bitmap, width, height) = font_renderer.rasterize_char(ch, size);
            let advance = font_renderer.get_char_advance(ch, size);
            let glyph = Glyph::from_parts(bitmap, width, height, advance);
            let ghost before = glyph_views(glyphs@);
            glyphs.push(glyph);
            assert(glyph_views(glyphs@) =~= before.push(glyph@));
            assert(line_glyphs(font, line@, size).take(i + 1) =~= line_glyphs(
                font,
                line@,
                size,
            ).take(i as int).push(line_glyph(font, ch, size)));
            i += 1;
        }
        assert(line_glyphs(font, line@, size).take(line.len() as int) =~= line_glyphs(
            font,
            line@,
            size,
        ));
        assert(line@.take(line.len() as int) =~= line@);
        match compose_line(&glyphs, self.width) {
            Some(picture) => {
                let art = quantize(&picture);
                out.append(art.as_str());
            },
            None => {
                push_chars(out, line);
            },
        }
    }

    /// Shows one line of text as a half-block picture, without wrapping it. A line whose
    /// glyphs give no picture is returned as it is.
    pub fn render_line_pixels(
        &mut self,
        text: &str,
        font_renderer: &mut FontRenderer,
    ) -> (art: String)
        requires
            old(font_renderer).wf(),
        ensures
            *final(self) == *old(self),
            final(font_renderer).wf(),
            final(font_renderer).font_data() == old(font_renderer).font_data(),
            final(font_renderer).keeps(
                old(font_renderer),
                old(self).size(),
                line_chars(old(font_renderer).font_data(), text@),
            ),
            art@ == line_art(
                old(font_renderer).font_data(),
                text@,
                old(self).size(),
                old(self).max_width(),
            ),
    {
        let line = chars_of(text);
        let mut art = String::new();
        self.push_line(&line, font_renderer, &mut art);
        art
    }

    /// Appends a text as it is shown to `out`.
    pub(crate) fn push_text(
        &self,
        text: &Vec<char>,
        font_renderer: &mut FontRenderer,
        out: &mut String,
    )
        requires
            old(font_renderer).wf(),
        ensures
            final(font_renderer).wf(),
            final(font_renderer).font_data() == old(font_renderer).font_data(),
            final(font_renderer).keeps(
                old(font_renderer),
                self.size(),
                text_chars(old(font_renderer).font_data(), text@, self.size(), self.max_width()),
            ),
            final(out)@ == old(out)@ + text_art(
                old(font_renderer).font_data(),
                text@,
                self.size(),
                self.max_width(),
            ),
    {
        let size = self.pixel_size;
        let ghost font = font_renderer.font_data();
        let mut advances: Vec<usize> = Vec::new();
        let mut i: usize = 0;
        while i < text.len()
            invariant
                i <= text.len(),
                font_renderer.wf(),
                font_renderer.font_data() == font,
                advances@ == char_advances(font, text@, size).take(i as int),
            decreases text.len() - i,
        {
            advances.push(font_renderer.get_char_advance(text[i], size));
            assert(char_advances(font, text@, size).take(i + 1) =~= char_advances(
                font,
                text@,
                size,
            ).take(i as int).push(advance_of(font, text@[i as int], size)));
            i += 1;
        }
        assert(char_advances(font, text@, size).take(text.len() as int) =~= char_advances(
            font,
            text@,
            size,
        ));
        let space_advance = font_renderer.get_char_advance(' ', size);
        let lines = wrap_chars(text, &advances, space_advance, self.width);
        let mut k: usize = 0;
        while k < lines.len()
            invariant
                k <= lines.len(),
                font_renderer.wf(),
                font_renderer.font_data() == font,
                font == old(font_renderer).font_data(),
                size == self.size(),
                font_renderer.keeps(
                    old(font_renderer),
                    size,
                    lines_chars(font, views(lines@), k as int),
                ),
                views(lines@) == wrapped_lines(font, text@, size, self.max_width()),
                out@ == old(out)@ + lines_art(
                    font,
                    views(lines@),
                    size,
                    self.max_width(),
                    k as int,
                ),
            decreases lines.len() - k,
        {
            self.push_line(&lines[k], font_renderer, out);
            k += 1;
        }
    }

    /// Shows a text as half-block pictures: the text is wrapped into lines that fit the
    /// renderer's width, and each line is drawn. Without a font the text is wrapped all
    /// the same, and the lines follow each other as they are.
    pub fn render_text(&mut self, text: &str, font_renderer: &mut FontRenderer) -> (art: String)
        requires
            old(font_renderer).wf(),
        ensures
            *final(self) == *old(self),
            final(font_renderer).wf(),
            final(font_renderer).font_data() == old(font_renderer).font_data(),
            final(font_renderer).keeps(
                old(font_renderer),
                old(self).size(),
                text_chars(
                    old(font_renderer).font_data(),
                    text@,
                    old(self).size(),
                    old(self).max_width(),
                ),
            ),
            art@ == text_art(
                old(font_renderer).font_data(),
                text@,
                old(self).size(),
                old(self).max_width(),
            ),
    {
        let chars = chars_of(text);
        let mut art = String::new();
        self.push_text(&chars, font_renderer, &mut art);
        art
    }
    /// Appends a code block as it is shown to `out`.
    pub(crate) fn push_code_block(
        &self,
        code: &Vec<char>,
        font_renderer: &mut FontRenderer,
        out: &mut String,
    )
        requires
            old(font_renderer).wf(),
        ensures
            final(font_renderer).wf(),
            final(font_renderer).font_data() == old(font_renderer).font_data(),
            final(font_renderer).keeps(
                old(font_renderer),
                self.size(),
                code_chars(old(font_renderer).font_data(), code@),
            ),
            final(out)@ == old(out)@ + code_art(
                old(font_renderer).font_data(),
                code@,
                self.size(),
                self.max_width(),
            ),
    {
        let ghost font = font_renderer.font_data();
        let code_lines = lines(code);
        out.push('\u{250c}');
        out.push('\u{2500}');
        out.push(' ');
        out.push('c');
        out.push('o');
        out.push('d');
        out.push('e');
        out.push(' ');
        push_repeat(out, '\u{2500}', 70);
        out.push('\u{2510}');
        out.push('\n');
        assert(out@ =~= old(out)@ + code_top());
        let mut k: usize = 0;
        while k < code_lines.len()
            invariant
                k <= code_lines.len(),
                font_renderer.wf(),
                font_renderer.font_data() == font,
                font == old(font_renderer).font_data(),
                font_renderer.keeps(
                    old(font_renderer),
                    self.size(),
                    lines_chars(font, views(code_lines@), k as int),
                ),
                out@ == old(out)@ + code_top() + lines_art(
                    font,
                    views(code_lines@),
                    self.size(),
                    self.max_width(),
                    k as int,
                ),
            decreases code_lines.len() - k,
        {
            self.push_line(&code_lines[k], font_renderer, out);
            k += 1;
        }
        let ghost body = out@;
        out.push('\u{2514}');
        push_repeat(out, '\u{2500}', 77);
        out.push('\u{2518}');
        out.push('\n');
        assert(out@ =~= body + code_bottom());
    }

    /// Shows a code block: each of its lines is drawn as it is, without wrapping,
    /// between an upper and a lower border of fixed width.
    pub fn render_code_block(
        &mut self,
        code: &str,
        font_renderer: &mut FontRenderer,
    ) -> (art: String)
        requires
            old(font_renderer).wf(),
        ensures
            *final(self) == *old(self),
            final(font_renderer).wf(),
            final(font_renderer).font_data() == old(font_renderer).font_data(),
            final(font_renderer).keeps(
                old(font_renderer),
                old(self).size(),
                code_chars(old(font_renderer).font_data(), code@),
            ),
            art@ == code_art(
                old(font_renderer).font_data(),
                code@,
                old(self).size(),
                old(self).max_width(),
            ),
    {
        let chars = chars_of(code);
        let mut art = String::new();
        self.push_code_block(&chars, font_renderer, &mut art);
        art
    }

    /// Appends a quotation as it is shown to `out`.
    pub(crate) fn push_blockquote(
        &self,
        text: &Vec<char>,
        font_renderer: &mut FontRenderer,
        out: &mut String,
    )
        requires
            old(font_renderer).wf(),
        ensures
            final(font_renderer).wf(),
            final(font_renderer).font_data() == old(font_renderer).font_data(),
            final(font_renderer).keeps(
                old(font_renderer),
                self.size(),
                text_chars(old(font_renderer).font_data(), text@, self.size(), self.max_width()),
            ),
            final(out)@ == old(out)@ + quote_art(
                old(font_renderer).font_data(),
                text@,
                self.size(),
                self.max_width(),
            ),
    {
        let mut rendered = String::new();
        self.push_text(text, font_renderer, &mut rendered);
        let shown = lines(&chars_of(rendered.as_str()));
        let mut k: usize = 0;
        while k < shown.len()
            invariant
                k <= shown.len(),
                out@ == old(out)@ + quoted(views(shown@), k as int),
            decreases shown.len() - k,
        {
            let ghost before = out@;
            out.push('\u{2502}');
            out.push(' ');
            push_chars(out, &shown[k]);
            out.push('\n');
            assert(out@ =~= before + quote_bar() + shown@[k as int]@ + seq!['\n']);
            k += 1;
        }
    }

    /// Shows a quotation: the text is shown as by `render_text`, and each line of the
    /// result stands behind a bar and a space.
    pub fn render_blockquote(
        &mut self,
        text: &str,
        font_renderer: &mut FontRenderer,
    ) -> (art: String)
        requires
            old(font_renderer).wf(),
        ensures
            *final(self) == *old(self),
            final(font_renderer).wf(),
            final(font_renderer).font_data() == old(font_renderer).font_data(),
            final(font_renderer).keeps(
                old(font_renderer),
                old(self).size(),
                text_chars(
                    old(font_renderer).font_data(),
                    text@,
                    old(self).size(),
                    old(self).max_width(),
                ),
            ),
            art@ == quote_art(
                old(font_renderer).font_data(),
                text@,
                old(self).size(),
                old(self).max_width(),
            ),
    {
        let chars = chars_of(text);
        let mut art = String::new();
        self.push_blockquote(&chars, font_renderer, &mut art);
        art
    }

    /// Appends a list item as it is shown to `out`.
    pub(crate) fn push_list_item(
        &self,
        item: &Vec<char>,
        font_renderer: &mut FontRenderer,
        out: &mut String,
    )
        requires
            old(font_renderer).wf(),
        ensures
            final(font_renderer).wf(),
            final(font_renderer).font_data() == old(font_renderer).font_data(),
            final(font_renderer).keeps(
                old(font_renderer),
                self.size(),
                item_chars(old(font_renderer).font_data(), item@, self.size(), self.max_width()),
            ),
            final(out)@ == old(out)@ + item_art(
                old(font_renderer).font_data(),
                item@,
                self.size(),
                self.max_width(),
            ),
    {
        let mut bullet_text: Vec<char> = Vec::new();
        bullet_text.push('\u{2022}');
        bullet_text.push(' ');
        assert(bullet_text@ =~= bullet());
        let mut bullet_art = String::new();
        self.push_line(&bullet_text, font_renderer, &mut bullet_art);
        let mut content_art = String::new();
        self.push_text(item, font_renderer, &mut content_art);
        layout_item(bullet_art.as_str(), content_art.as_str(), out);
    }

    /// Shows a list item: the bullet, drawn as a line of its own, stands left of the
    /// content, drawn as by `render_text`. Where one of the two has fewer lines than
    /// the other, its column is blank in the remaining rows.
    pub fn render_list_item(
        &mut self,
        item: &str,
        font_renderer: &mut FontRenderer,
    ) -> (art: String)
        requires
            old(font_renderer).wf(),
        ensures
            *final(self) == *old(self),
            final(font_renderer).wf(),
            final(font_renderer).font_data() == old(font_renderer).font_data(),
            final(font_renderer).keeps(
                old(font_renderer),
                old(self).size(),
                item_chars(
                    old(font_renderer).font_data(),
                    item@,
                    old(self).size(),
                    old(self).max_width(),
                ),
            ),
            art@ == item_art(
                old(font_renderer).font_data(),
                item@,
                old(self).size(),
                old(self).max_width(),
            ),
    {
        let chars = chars_of(item);
        let mut art = String::new();
        self.push_list_item(&chars, font_renderer, &mut art);
        art
    }

    /// Appends the items of a list as they are shown to `out`.
    pub(crate) fn push_list(
        &self,
        items: &[MarkdownElement],
        font_renderer: &mut FontRenderer,
        out: &mut String,
    )
        requires
            old(font_renderer).wf(),
        ensures
            final(font_renderer).wf(),
            final(font_renderer).font_data() == old(font_renderer).font_data(),
            final(font_renderer).keeps(
                old(font_renderer),
                self.size(),
                list_chars(
                    old(font_renderer).font_data(),
                    contents(items@),
                    self.size(),
                    self.max_width(),
                    items@.len() as int,
                ),
            ),
            final(out)@ == old(out)@ + list_art(
                old(font_renderer).font_data(),
                contents(items@),
                self.size(),
                self.max_width(),
                items@.len() as int,
            ),
    {
        let ghost font = font_renderer.font_data();
        let mut k: usize = 0;
        while k < items.len()
            invariant
                k <= items.len(),
                font_renderer.wf(),
                font_renderer.font_data() == font,
                font == old(font_renderer).font_data(),
                font_renderer.keeps(
                    old(font_renderer),
                    self.size(),
                    list_chars(font, contents(items@), self.size(), self.max_width(), k as int),
                ),
                out@ == old(out)@ + list_art(
                    font,
                    contents(items@),
                    self.size(),
                    self.max_width(),
                    k as int,
                ),
            decreases items.len() - k,
        {
            let item = chars_of(items[k].content.as_str());
            self.push_list_item(&item, font_renderer, out);
            k += 1;
        }
    }

    /// Shows a list: each item's content is shown as a list item, one after the other.
    pub fn render_list(
        &mut self,
        items: &[MarkdownElement],
        font_renderer: &mut FontRenderer,
    ) -> (art: String)
        requires
            old(font_renderer).wf(),
        ensures
            *final(self) == *old(self),
            final(font_renderer).wf(),
            final(font_renderer).font_data() == old(font_renderer).font_data(),
            final(font_renderer).keeps(
                old(font_renderer),
                old(self).size(),
                list_chars(
                    old(font_renderer).font_data(),
                    contents(items@),
                    old(self).size(),
                    old(self).max_width(),
                    items@.len() as int,
                ),
            ),
            art@ == list_art(
                old(font_renderer).font_data(),
                contents(items@),
                old(self).size(),
                old(self).max_width(),
                items@.len() as int,
            ),
    {
        let mut art = String::new();
        self.push_list(items, font_renderer, &mut art);
        art
    }

    /// A checkerboard of full blocks and blanks, `width` characters wide and `height`
    /// rows high; its top left corner is a full block.
    pub fn render_unicode_blocks(&mut self, width: usize, height: usize) -> (art: String)
        ensures
            *final(self) == *old(self),
            art@ == checkerboard(width as nat, height as nat),
    {
        let mut art = String::new();
        let mut y: usize = 0;
        while y < height
            invariant
                y <= height,
                art@ == checkerboard(width as nat, y as nat),
            decreases height - y,
        {
            let ghost before = art@;
            let mut x: usize = 0;
            while x < width
                invariant
                    x <= width,
                    y < height,
                    art@ == before + Seq::new(
                        x as nat,
                        |i: int|
                            if (i + y) % 2 == 0 {
                                FULL_BLOCK
                            } else {
                                BLANK
                            },
                    ),
                decreases width - x,
            {
                if x % 2 == y % 2 {
                    art.push(FULL_BLOCK);
                } else {
                    art.push(BLANK);
                }
                x += 1;
            }
            art.push('\n');
            y += 1;
        }
        art
    }

    /// The size of a character cell in pixels, width then height.
    pub fn detect_terminal_font_size(&self) -> (cell: (u32, u32))
        ensures
            cell == (8u32, 16u32),
    {
        (8, 16)
    }

    /// The name of the way pictures are shown.
    pub fn get_terminal_protocol(&self) -> (name: String)
        ensures
            name@ == "unicode_blocks"@,
    {
        String::from_str("unicode_blocks")
    }

    /// The content as it is.
    pub fn optimize_rendering(&mut self, content: &str) -> (result: String)
        ensures
            *final(self) == *old(self),
            result@ == content@,
    {
        String::from_str(content)
    }
}

/// Appends the rows of a list item to `out`, from the shown bullet and the shown
/// content.
pub fn layout_item(bullet_art: &str, content_art: &str, out: &mut String)
    ensures
        final(out)@ == old(out)@ + item_layout(bullet_art@, content_art@),
{
    let bullet_lines = lines(&chars_of(bullet_art));
    let content_lines = lines(&chars_of(content_art));
    let count = if bullet_lines.len() > content_lines.len() {
        bullet_lines.len()
    } else {
        content_lines.len()
    };
    let width = if bullet_lines.len() > 0 {
        bullet_lines[0].len()
    } else {
        DEFAULT_BULLET_WIDTH
    };
    assert(width == bullet_width(views(bullet_lines@)));
    let mut i: usize = 0;
    while i < count
        invariant
            i <= count,
            width == bullet_width(views(bullet_lines@)),
            out@ == old(out)@ + item_rows(
                views(bullet_lines@),
                views(content_lines@),
                width as nat,
                i as int,
            ),
        decreases count - i,
    {
        let ghost before = out@;
        if i < bullet_lines.len() {
            let line = &bullet_lines[i];
            push_chars(out, line);
            if line.len() < width {
                push_repeat(out, ' ', width - line.len());
            }
        } else {
            push_repeat(out, ' ', width);
            assert(Seq::<char>::empty() + repeat(' ', width as nat) =~= repeat(' ', width as nat));
        }
        assert(out@ =~= before + padded(
            line_or_blank(views(bullet_lines@), i as int),
            width as nat,
        ));
        if i < content_lines.len() {
            push_chars(out, &content_lines[i]);
        }
        out.push('\n');
        assert(out@ =~= before + padded(line_or_blank(views(bullet_lines@), i as int), width as nat)
            + line_or_blank(views(content_lines@), i as int) + seq!['\n']);
        i += 1;
    }
}

} // verus!