use termdown::font::FontRenderer;
use termdown::markdown::ElementType;
use termdown::markdown::MarkdownElement;
use termdown::terminal::layout_item;
use termdown::terminal::TerminalRenderer;
use termdown::terminal::DEFAULT_BULLET_WIDTH;
use termdown::terminal::PIXEL_SIZE;

const TOP_BORDER: &str =
    "┌─ code ──────────────────────────────────────────────────────────────────────┐\n";
const BOTTOM_BORDER: &str =
    "└─────────────────────────────────────────────────────────────────────────────┘\n";

fn laid_out(bullet: &str, content: &str) -> String {
    let mut out = String::new();
    layout_item(bullet, content, &mut out);
    out
}

fn item(content: &str) -> MarkdownElement {
    MarkdownElement {
        element_type: ElementType::ListItem,
        content: content.to_string(),
        children: vec![],
        attributes: vec![],
    }
}

#[test]
fn the_fixed_sizes() {
    assert_eq!(PIXEL_SIZE, 8);
    assert_eq!(DEFAULT_BULLET_WIDTH, 2);
}

#[test]
fn without_a_font_the_words_are_joined_by_single_spaces() {
    let mut font = FontRenderer::new_empty();
    let mut renderer = TerminalRenderer::new(800);
    assert_eq!(renderer.render_text("a  b", &mut font), "a b");
    assert_eq!(renderer.render_text("hello   world", &mut font), "hello world");
    assert_eq!(renderer.render_text("  two\nlines ", &mut font), "two lines");
}

#[test]
fn without_a_font_text_without_words_shows_as_nothing() {
    let mut font = FontRenderer::new_empty();
    let mut renderer = TerminalRenderer::new(800);
    assert_eq!(renderer.render_text("", &mut font), "");
    assert_eq!(renderer.render_text("   ", &mut font), "");
    assert_eq!(renderer.render_text(" \n\t ", &mut font), "");
}

#[test]
fn without_a_font_text_is_wrapped_by_the_stand_in_advance() {
    // every character advances by 4 pixels, and so does the gap
    let mut font = FontRenderer::new_empty();
    assert_eq!(TerminalRenderer::new(28).render_text("aaa bbb", &mut font), "aaa bbb");
    assert_eq!(TerminalRenderer::new(27).render_text("aaa bbb", &mut font), "aaabbb");
    assert_eq!(TerminalRenderer::new(10).render_text("aaa bbb", &mut font), "aaabbb");
    assert_eq!(TerminalRenderer::new(12).render_text("a b c d", &mut font), "a bc d");
}

#[test]
fn without_a_font_a_line_break_counts_as_a_space() {
    let mut font = FontRenderer::new_empty();
    for width in [0usize, 10, 28, 800] {
        let mut renderer = TerminalRenderer::new(width);
        assert_eq!(
            renderer.render_text("aaa\nbbb", &mut font),
            renderer.render_text("aaa bbb", &mut font)
        );
    }
}

#[test]
fn without_a_font_a_line_stands_for_itself() {
    let mut font = FontRenderer::new_empty();
    let mut renderer = TerminalRenderer::new(800);
    assert_eq!(renderer.render_line_pixels("# Title", &mut font), "# Title");
    assert_eq!(renderer.render_line_pixels("", &mut font), "");
}

#[test]
fn the_borders_of_a_code_block() {
    let mut font = FontRenderer::new_empty();
    let shown = TerminalRenderer::new(800).render_code_block("", &mut font);
    assert_eq!(shown, format!("{}{}", TOP_BORDER, BOTTOM_BORDER));
    let rows: Vec<&str> = shown.lines().collect();
    assert_eq!(rows[0].chars().count(), 79);
    assert_eq!(rows[1].chars().count(), 79);
}

#[test]
fn the_borders_do_not_follow_the_width() {
    let mut font = FontRenderer::new_empty();
    for width in [0usize, 10, 5000] {
        assert_eq!(
            TerminalRenderer::new(width).render_code_block("", &mut font),
            format!("{}{}", TOP_BORDER, BOTTOM_BORDER)
        );
    }
}

#[test]
fn without_a_font_code_lines_follow_each_other() {
    let mut font = FontRenderer::new_empty();
    assert_eq!(
        TerminalRenderer::new(800).render_code_block("let x = 1;\nlet y = 2;\n", &mut font),
        format!("{}let x = 1;let y = 2;{}", TOP_BORDER, BOTTOM_BORDER)
    );
}

#[test]
fn without_a_font_a_quotation_is_one_barred_line() {
    let mut font = FontRenderer::new_empty();
    let mut renderer = TerminalRenderer::new(800);
    assert_eq!(renderer.render_blockquote("a\nb", &mut font), "│ a b\n");
    assert_eq!(renderer.render_blockquote("one line", &mut font), "│ one line\n");
    assert_eq!(renderer.render_blockquote("a\n\nb\n", &mut font), "│ a b\n");
    assert_eq!(renderer.render_blockquote("", &mut font), "");
    assert_eq!(TerminalRenderer::new(10).render_blockquote("aaa bbb", &mut font), "│ aaabbb\n");
}

#[test]
fn without_a_font_a_list_item_follows_its_bullet() {
    let mut font = FontRenderer::new_empty();
    let mut renderer = TerminalRenderer::new(800);
    assert_eq!(renderer.render_list_item("item", &mut font), "• item\n");
    assert_eq!(renderer.render_list_item("x\ny", &mut font), "• x y\n");
    assert_eq!(renderer.render_list_item("  x   y ", &mut font), "• x y\n");
    assert_eq!(renderer.render_list_item("", &mut font), "• \n");
}

#[test]
fn without_a_font_a_list_is_item_after_item() {
    let mut font = FontRenderer::new_empty();
    let items = vec![item("first"), item("second"), item("third")];
    assert_eq!(
        TerminalRenderer::new(800).render_list(&items, &mut font),
        "• first\n• second\n• third\n"
    );
    assert_eq!(TerminalRenderer::new(800).render_list(&[], &mut font), "");
}

#[test]
fn rows_pair_bullet_lines_with_content_lines() {
    assert_eq!(laid_out("██\n▀▀\n", "ab\ncd\n"), "██ab\n▀▀cd\n");
}

#[test]
fn a_short_bullet_leaves_its_column_blank() {
    assert_eq!(laid_out("█\n", "a\nb\nc\n"), "█a\n b\n c\n");
    assert_eq!(laid_out("• ", "x\ny"), "• x\n  y\n");
}

#[test]
fn a_short_content_leaves_its_column_empty() {
    assert_eq!(laid_out("██\n▀▀\n▄▄\n", "ab\n"), "██ab\n▀▀\n▄▄\n");
}

#[test]
fn the_bullet_column_is_as_wide_as_the_first_bullet_line() {
    assert_eq!(laid_out("███\n█\n\n████\n", "a\nb\nc\nd\n"), "███a\n█  b\n   c\n████d\n");
}

#[test]
fn the_bullet_column_counts_characters() {
    assert_eq!(laid_out("▄█▀\n", "a\nb\n"), "▄█▀a\n   b\n");
}

#[test]
fn without_a_bullet_the_column_is_two_wide() {
    assert_eq!(laid_out("", "a\nb"), "  a\n  b\n");
    assert_eq!(laid_out("", ""), "");
}

#[test]
fn layout_appends_to_what_is_there() {
    let mut out = String::from("before\n");
    layout_item("*", "x", &mut out);
    assert_eq!(out, "before\n*x\n");
}

#[test]
fn the_checkerboard_begins_with_a_full_block() {
    let mut renderer = TerminalRenderer::new(800);
    assert_eq!(renderer.render_unicode_blocks(3, 2), "█ █\n █ \n");
    assert_eq!(renderer.render_unicode_blocks(1, 3), "█\n \n█\n");
    assert_eq!(renderer.render_unicode_blocks(4, 1), "█ █ \n");
    assert_eq!(renderer.render_unicode_blocks(0, 2), "\n\n");
    assert_eq!(renderer.render_unicode_blocks(5, 0), "");
}

#[test]
fn the_cell_size() {
    assert_eq!(TerminalRenderer::new(800).detect_terminal_font_size(), (8, 16));
}

#[test]
fn the_protocol_name() {
    assert_eq!(TerminalRenderer::new(800).get_terminal_protocol(), "unicode_blocks");
}

#[test]
fn optimizing_changes_nothing() {
    let mut renderer = TerminalRenderer::new(800);
    assert_eq!(renderer.optimize_rendering("█▀▄ text\n"), "█▀▄ text\n");
    assert_eq!(renderer.optimize_rendering(""), "");
}
