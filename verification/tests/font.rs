use termdown::font::FontRenderer;
use termdown::image::ImageFile;
use termdown::markdown::process_markdown;
use termdown::markdown::ElementType;
use termdown::markdown::MarkdownElement;
use termdown::terminal::TerminalRenderer;

/// A font of five glyphs on a grid of 16 units per em. `a` and `#` are a box 8 units
/// wide and 16 high, `b` and the bullet a box 8 wide and 8 high, `c` a box 8 wide and
/// 6 high; each of them advances by 12 units. The space has no outline and advances
/// by 4 units; every other character has no outline and advances by 8 units.
const BOX_FONT: [u8; 488] = [
    0, 1, 0, 0, 0, 7, 0, 64, 0, 2, 0, 48, 99, 109, 97, 112,
    0, 0, 0, 0, 0, 0, 0, 124, 0, 0, 0, 100, 103, 108, 121, 102,
    0, 0, 0, 0, 0, 0, 0, 224, 0, 0, 0, 108, 104, 101, 97, 100,
    0, 0, 0, 0, 0, 0, 1, 76, 0, 0, 0, 54, 104, 104, 101, 97,
    0, 0, 0, 0, 0, 0, 1, 132, 0, 0, 0, 36, 104, 109, 116, 120,
    0, 0, 0, 0, 0, 0, 1, 168, 0, 0, 0, 20, 108, 111, 99, 97,
    0, 0, 0, 0, 0, 0, 1, 188, 0, 0, 0, 12, 109, 97, 120, 112,
    0, 0, 0, 0, 0, 0, 1, 200, 0, 0, 0, 32, 0, 0, 0, 1,
    0, 3, 0, 10, 0, 0, 0, 12, 0, 12, 0, 0, 0, 0, 0, 88,
    0, 0, 0, 0, 0, 0, 0, 6, 0, 0, 0, 32, 0, 0, 0, 32,
    0, 0, 0, 3, 0, 0, 0, 35, 0, 0, 0, 35, 0, 0, 0, 1,
    0, 0, 0, 97, 0, 0, 0, 97, 0, 0, 0, 1, 0, 0, 0, 98,
    0, 0, 0, 98, 0, 0, 0, 2, 0, 0, 0, 99, 0, 0, 0, 99,
    0, 0, 0, 4, 0, 0, 32, 34, 0, 0, 32, 34, 0, 0, 0, 2,
    0, 1, 0, 0, 0, 0, 0, 8, 0, 16, 0, 3, 0, 0, 1, 1,
    1, 1, 0, 0, 0, 0, 0, 8, 0, 0, 0, 0, 0, 16, 0, 0,
    255, 240, 0, 0, 0, 1, 0, 0, 0, 0, 0, 8, 0, 8, 0, 3,
    0, 0, 1, 1, 1, 1, 0, 0, 0, 0, 0, 8, 0, 0, 0, 0,
    0, 8, 0, 0, 255, 248, 0, 0, 0, 1, 0, 0, 0, 0, 0, 8,
    0, 6, 0, 3, 0, 0, 1, 1, 1, 1, 0, 0, 0, 0, 0, 8,
    0, 0, 0, 0, 0, 6, 0, 0, 255, 250, 0, 0, 0, 1, 0, 0,
    0, 1, 0, 0, 0, 0, 0, 0, 95, 15, 60, 245, 0, 0, 0, 16,
    0, 0, 0, 0, 0, 0, 0, 0, 0, 0, 0, 0, 0, 0, 0, 0,
    0, 0, 0, 0, 0, 8, 0, 16, 0, 0, 0, 8, 0, 2, 0, 0,
    0, 0, 0, 0, 0, 1, 0, 0, 0, 16, 0, 0, 0, 0, 0, 12,
    0, 0, 0, 0, 0, 8, 0, 1, 0, 0, 0, 0, 0, 0, 0, 0,
    0, 0, 0, 0, 0, 0, 0, 5, 0, 8, 0, 0, 0, 12, 0, 0,
    0, 12, 0, 0, 0, 4, 0, 0, 0, 12, 0, 0, 0, 0, 0, 0,
    0, 18, 0, 36, 0, 36, 0, 54, 0, 1, 0, 0, 0, 5, 0, 4,
    0, 1, 0, 0, 0, 0, 0, 1, 0, 0, 0, 0, 0, 0, 0, 0,
    0, 0, 0, 0, 0, 0, 0, 0,
];

const CODE_TOP: &str =
    "┌─ code ──────────────────────────────────────────────────────────────────────┐\n";
const CODE_BOTTOM: &str =
    "└─────────────────────────────────────────────────────────────────────────────┘\n";

/// The rows one after the other, each closed by a line feed.
fn art(rows: &[&str]) -> String {
    rows.iter().map(|row| format!("{}\n", row)).collect()
}

fn box_font() -> FontRenderer {
    FontRenderer::new(&BOX_FONT)
}

/// The box font with another advance, in units, for the glyph of the given index: 1 is
/// the box of `a`, 2 that of `b`, 4 that of `c`.
fn box_font_with_advance(glyph: usize, advance: u16) -> FontRenderer {
    let mut bytes = BOX_FONT.to_vec();
    let record = (0..7).map(|i| 12 + 16 * i).find(|r| &BOX_FONT[*r..*r + 4] == b"hmtx").unwrap();
    let table = u32::from_be_bytes(BOX_FONT[record + 8..record + 12].try_into().unwrap()) as usize;
    bytes[table + 4 * glyph..table + 4 * glyph + 2].copy_from_slice(&advance.to_be_bytes());
    FontRenderer::new(&bytes)
}

#[test]
fn a_line_whose_glyphs_do_not_move_the_cursor_stands_for_itself() {
    let mut font = box_font_with_advance(4, 0);
    let mut renderer = TerminalRenderer::new(800);
    assert_eq!(font.rasterize_char('c', 8), (vec![255; 12], 4, 3));
    assert_eq!(font.get_char_advance('c', 8), 0);
    assert_eq!(renderer.render_line_pixels("c", &mut font), "c");
    assert_eq!(renderer.render_line_pixels("ccc", &mut font), "ccc");
    assert_eq!(renderer.render_text(" cc ", &mut font), "cc");
    // the space moves the cursor by 2 pixels, so this line has a picture, 2 pixels wide
    assert_eq!(renderer.render_text("cc c", &mut font), art(&["██", "▀▀"]));
}

#[test]
fn a_glyph_at_the_end_that_does_not_move_the_cursor_is_left_out() {
    let mut font = box_font_with_advance(4, 0);
    let mut renderer = TerminalRenderer::new(800);
    assert_eq!(
        renderer.render_line_pixels("bc", &mut font),
        art(&["████  ", "████  "])
    );
    assert_eq!(
        renderer.render_line_pixels("cb", &mut font),
        art(&["████  ", "████  "])
    );
}

#[test]
fn a_glyph_wider_than_its_advance_is_drawn_under_the_next() {
    // `a` is 4 pixels wide and advances by 2, `b` stands from pixel 2 on
    let mut font = box_font_with_advance(1, 4);
    let mut renderer = TerminalRenderer::new(800);
    assert_eq!(font.get_char_advance('a', 8), 2);
    assert_eq!(
        renderer.render_line_pixels("ab", &mut font),
        art(&["████    ", "████    ", "██████  ", "██████  "])
    );
    assert_eq!(renderer.render_line_pixels("a", &mut font), art(&["██", "██", "██", "██"]));
}

#[test]
fn a_font_is_read_from_its_bytes() {
    assert!(box_font().has_font());
}

#[test]
fn bytes_that_are_no_font_give_no_font() {
    assert!(!FontRenderer::new(&[]).has_font());
    assert!(!FontRenderer::new(b"not a font at all").has_font());
    assert!(!FontRenderer::new(&BOX_FONT[..100]).has_font());
    assert!(!FontRenderer::new_empty().has_font());
}

#[test]
fn without_a_font_the_advance_is_six_tenths_of_the_size() {
    let font = FontRenderer::new_empty();
    assert_eq!(font.get_char_advance('a', 8), 4);
    assert_eq!(font.get_char_advance(' ', 8), 4);
    assert_eq!(font.get_char_advance('a', 10), 6);
    assert_eq!(font.get_char_advance('a', 5), 3);
    assert_eq!(font.get_char_advance('a', 1), 0);
    assert_eq!(font.get_char_advance('a', 0), 0);
    assert_eq!(font.get_char_advance('a', 9), 5);
    assert_eq!(font.get_char_advance('a', 65535), 39321);
}

#[test]
fn without_a_font_every_bitmap_is_empty() {
    let mut font = FontRenderer::new_empty();
    assert_eq!(font.rasterize_char('a', 8), (vec![], 0, 0));
    assert_eq!(font.rasterize_char(' ', 100), (vec![], 0, 0));
}

#[test]
fn a_glyph_is_rasterized_at_the_size() {
    let mut font = box_font();
    assert_eq!(font.rasterize_char('a', 8), (vec![255; 32], 4, 8));
    assert_eq!(font.rasterize_char('b', 8), (vec![255; 16], 4, 4));
    assert_eq!(font.rasterize_char('c', 8), (vec![255; 12], 4, 3));
    assert_eq!(font.rasterize_char('a', 16), (vec![255; 128], 8, 16));
    assert_eq!(font.rasterize_char('a', 4), (vec![255; 8], 2, 4));
    assert_eq!(font.rasterize_char('b', 2), (vec![255; 1], 1, 1));
}

#[test]
fn a_glyph_without_outline_has_an_empty_bitmap() {
    let mut font = box_font();
    assert_eq!(font.rasterize_char(' ', 8), (vec![], 0, 0));
    assert_eq!(font.rasterize_char('z', 8), (vec![], 0, 0));
    assert_eq!(font.rasterize_char('a', 0), (vec![], 0, 0));
}

#[test]
fn the_advance_is_scaled_and_truncated() {
    let font = box_font();
    assert_eq!(font.get_char_advance('a', 8), 6);
    assert_eq!(font.get_char_advance(' ', 8), 2);
    assert_eq!(font.get_char_advance('z', 8), 4);
    assert_eq!(font.get_char_advance('a', 16), 12);
    assert_eq!(font.get_char_advance('a', 1), 0);
    assert_eq!(font.get_char_advance('a', 3), 2);
    assert_eq!(font.get_char_advance('a', 0), 0);
}

#[test]
fn a_glyph_asked_for_again_is_the_same() {
    let mut font = box_font();
    let first = font.rasterize_char('c', 8);
    let second = font.rasterize_char('c', 8);
    let other_size = font.rasterize_char('c', 16);
    let third = font.rasterize_char('c', 8);
    assert_eq!(first, second);
    assert_eq!(first, third);
    assert_eq!(other_size, (vec![255; 48], 8, 6));
    assert_eq!(font.rasterize_char('b', 8), (vec![255; 16], 4, 4));
}

#[test]
fn a_line_is_drawn_glyph_by_glyph() {
    let mut font = box_font();
    let mut renderer = TerminalRenderer::new(800);
    assert_eq!(
        renderer.render_line_pixels("ab", &mut font),
        art(&["████        ", "████        ", "████  ████  ", "████  ████  "])
    );
}

#[test]
fn a_glyph_of_odd_height_ends_in_half_blocks() {
    let mut font = box_font();
    let mut renderer = TerminalRenderer::new(800);
    assert_eq!(renderer.render_line_pixels("c", &mut font), art(&["████  ", "▀▀▀▀  "]));
    assert_eq!(
        renderer.render_line_pixels("ac", &mut font),
        art(&["████        ", "████        ", "████  ▄▄▄▄  ", "████  ████  "])
    );
}

#[test]
fn a_glyph_without_outline_moves_the_cursor_by_its_advance() {
    let mut font = box_font();
    let mut renderer = TerminalRenderer::new(800);
    assert_eq!(
        renderer.render_line_pixels("c c", &mut font),
        art(&["████    ████  ", "▀▀▀▀    ▀▀▀▀  "])
    );
    assert_eq!(renderer.render_line_pixels("zc", &mut font), art(&["    ████  ", "    ▀▀▀▀  "]));
    assert_eq!(renderer.render_line_pixels(" c", &mut font), art(&["  ████  ", "  ▀▀▀▀  "]));
}

#[test]
fn a_row_is_as_wide_as_the_advances_together() {
    let mut font = box_font();
    let mut renderer = TerminalRenderer::new(800);
    // `c` advances by 6, the space by 2, any other character by 4
    for (text, width) in [("c", 6), ("c c", 14), ("c  c", 16), ("czc", 16), ("c ", 8), ("ccc", 18)] {
        let shown = renderer.render_line_pixels(text, &mut font);
        assert_eq!(shown.lines().count(), 2);
        assert!(shown.lines().all(|row| row.chars().count() == width), "{:?}", text);
    }
}

#[test]
fn a_line_without_any_bitmap_stands_for_itself() {
    let mut font = box_font();
    let mut renderer = TerminalRenderer::new(800);
    assert_eq!(renderer.render_line_pixels("  ", &mut font), "  ");
    assert_eq!(renderer.render_line_pixels("xyz", &mut font), "xyz");
    assert_eq!(renderer.render_line_pixels("", &mut font), "");
}

#[test]
fn a_line_is_cut_at_the_width() {
    let mut font = box_font();
    assert_eq!(
        TerminalRenderer::new(8).render_line_pixels("ab", &mut font),
        art(&["████    ", "████    ", "████  ██", "████  ██"])
    );
    assert_eq!(
        TerminalRenderer::new(6).render_line_pixels("ab", &mut font),
        art(&["████  ", "████  ", "████  ", "████  "])
    );
    assert_eq!(
        TerminalRenderer::new(3).render_line_pixels("ab", &mut font),
        art(&["███", "███", "███", "███"])
    );
    assert_eq!(TerminalRenderer::new(0).render_line_pixels("c", &mut font), "\n\n");
}

#[test]
fn text_that_fits_is_one_line() {
    let mut font = box_font();
    let expected = art(&[
        "████                ",
        "████                ",
        "████  ████    ▄▄▄▄  ",
        "████  ████    ████  ",
    ]);
    assert_eq!(TerminalRenderer::new(800).render_text("ab c", &mut font), expected);
    assert_eq!(TerminalRenderer::new(22).render_text("  ab \n c ", &mut font), expected);
}

#[test]
fn text_is_wrapped_at_the_width() {
    let mut font = box_font();
    let expected = art(&[
        "████        ",
        "████        ",
        "████  ████  ",
        "████  ████  ",
        "████  ",
        "▀▀▀▀  ",
    ]);
    assert_eq!(TerminalRenderer::new(21).render_text("ab c", &mut font), expected);
    assert_eq!(TerminalRenderer::new(12).render_text("ab c", &mut font), expected);
}

#[test]
fn a_wide_word_is_cut_not_broken() {
    let mut font = box_font();
    assert_eq!(
        TerminalRenderer::new(9).render_text("ccc c", &mut font),
        art(&["████  ███", "▀▀▀▀  ▀▀▀", "████  ", "▀▀▀▀  "])
    );
}

#[test]
fn text_without_words_shows_as_nothing() {
    let mut font = box_font();
    assert_eq!(TerminalRenderer::new(800).render_text("", &mut font), "");
    assert_eq!(TerminalRenderer::new(800).render_text(" \n\t ", &mut font), "");
}

#[test]
fn a_code_block_draws_each_line_unwrapped() {
    let mut font = box_font();
    let expected = format!(
        "{}{}{}{}",
        CODE_TOP,
        art(&["████    ████  ", "▀▀▀▀    ▀▀▀▀  "]),
        art(&["████  ", "████  "]),
        CODE_BOTTOM
    );
    assert_eq!(TerminalRenderer::new(800).render_code_block("c c\nb", &mut font), expected);
}

#[test]
fn a_code_line_is_cut_at_the_width() {
    let mut font = box_font();
    let expected = format!("{}{}{}", CODE_TOP, art(&["████   ", "▀▀▀▀   "]), CODE_BOTTOM);
    assert_eq!(TerminalRenderer::new(7).render_code_block("c c", &mut font), expected);
}

#[test]
fn a_quotation_has_a_bar_before_each_row() {
    let mut font = box_font();
    assert_eq!(
        TerminalRenderer::new(800).render_blockquote("c", &mut font),
        art(&["│ ████  ", "│ ▀▀▀▀  "])
    );
    assert_eq!(
        TerminalRenderer::new(6).render_blockquote("b c", &mut font),
        art(&["│ ████  ", "│ ████  ", "│ ████  ", "│ ▀▀▀▀  "])
    );
}

#[test]
fn a_list_item_stands_right_of_its_bullet() {
    let mut font = box_font();
    assert_eq!(
        TerminalRenderer::new(800).render_list_item("a", &mut font),
        art(&["████    ████  ", "████    ████  ", "        ████  ", "        ████  "])
    );
    assert_eq!(
        TerminalRenderer::new(800).render_list_item("c", &mut font),
        art(&["████    ████  ", "████    ▀▀▀▀  "])
    );
}

#[test]
fn a_list_item_without_content_keeps_its_bullet() {
    let mut font = box_font();
    assert_eq!(
        TerminalRenderer::new(800).render_list_item("", &mut font),
        art(&["████    ", "████    "])
    );
}

#[test]
fn a_list_shows_its_items_in_order() {
    let mut font = box_font();
    let items = vec![
        MarkdownElement {
            element_type: ElementType::ListItem,
            content: "c".to_string(),
            children: vec![],
            attributes: vec![],
        },
        MarkdownElement {
            element_type: ElementType::ListItem,
            content: "b".to_string(),
            children: vec![],
            attributes: vec![],
        },
    ];
    assert_eq!(
        TerminalRenderer::new(800).render_list(&items, &mut font),
        art(&["████    ████  ", "████    ▀▀▀▀  ", "████    ████  ", "████    ████  "])
    );
}

#[test]
fn a_document_is_drawn_with_the_font() {
    let files: Vec<ImageFile> = vec![];
    let expected = format!(
        "{}\n{}\n",
        art(&["████    ████  ", "████    ████  ", "████    ████  ", "████    ████  "]),
        art(&["████  ", "▀▀▀▀  "])
    );
    assert_eq!(process_markdown("# a\n\nc\n", 800, &BOX_FONT, &files), expected);
}

#[test]
fn a_document_is_wrapped_at_the_width() {
    let files: Vec<ImageFile> = vec![];
    let expected = format!("{}{}\n", art(&["████  ", "████  "]), art(&["████  ", "▀▀▀▀  "]));
    assert_eq!(process_markdown("b\nc", 15, &BOX_FONT, &files), expected);
}
