use termdown::blocks::quantize;
use termdown::compose::compose_line;
use termdown::compose::Glyph;
use termdown::pixels::PixelBuffer;

fn glyph(bitmap: Vec<u8>, width: usize, height: usize, advance: usize) -> Glyph {
    Glyph::new(bitmap, width, height, advance).unwrap()
}

fn rows(picture: &PixelBuffer) -> Vec<Vec<u8>> {
    (0..picture.height())
        .map(|y| (0..picture.width()).map(|x| picture.get(x, y)).collect())
        .collect()
}

#[test]
fn a_glyph_wants_one_byte_for_each_pixel() {
    assert!(Glyph::new(vec![1, 2, 3, 4], 2, 2, 3).is_some());
    assert!(Glyph::new(vec![1, 2, 3], 2, 2, 3).is_none());
    assert!(Glyph::new(vec![], 0, 0, 4).is_some());
    assert!(Glyph::new(vec![], 0, 9, 4).is_some());
    assert!(Glyph::new(vec![1], usize::MAX, usize::MAX, 4).is_none());
}

#[test]
fn no_glyphs_give_no_picture() {
    assert!(compose_line(&vec![], 100).is_none());
}

#[test]
fn glyphs_without_height_give_no_picture() {
    let line = vec![glyph(vec![], 0, 0, 4), glyph(vec![], 3, 0, 5)];
    assert!(compose_line(&line, 100).is_none());
}

#[test]
fn glyphs_without_advance_give_no_picture() {
    let line = vec![glyph(vec![9], 1, 1, 0), glyph(vec![9, 9], 1, 2, 0)];
    assert!(compose_line(&line, 100).is_none());
}

#[test]
fn glyphs_stand_at_the_cursor_on_the_bottom_row() {
    let line = vec![glyph(vec![1, 2, 3, 4], 2, 2, 3), glyph(vec![9], 1, 1, 2)];
    let picture = compose_line(&line, 100).unwrap();
    assert_eq!(picture.width(), 5);
    assert_eq!(picture.height(), 2);
    assert_eq!(rows(&picture), vec![vec![1, 2, 0, 0, 0], vec![3, 4, 0, 9, 0]]);
}

#[test]
fn the_picture_is_as_high_as_the_tallest_glyph() {
    let line = vec![
        glyph(vec![7], 1, 1, 1),
        glyph(vec![1, 2, 3], 1, 3, 1),
        glyph(vec![5, 6], 1, 2, 1),
    ];
    let picture = compose_line(&line, 100).unwrap();
    assert_eq!(rows(&picture), vec![vec![0, 1, 0], vec![0, 2, 5], vec![7, 3, 6]]);
}

#[test]
fn the_picture_is_cut_at_the_maximum_width() {
    let line = vec![
        glyph(vec![1, 2], 2, 1, 3),
        glyph(vec![3, 4], 2, 1, 3),
        glyph(vec![5, 6], 2, 1, 3),
    ];
    let picture = compose_line(&line, 4).unwrap();
    assert_eq!(picture.width(), 4);
    assert_eq!(rows(&picture), vec![vec![1, 2, 0, 3]]);
}

#[test]
fn a_glyph_at_the_right_edge_is_left_out() {
    let line = vec![glyph(vec![1, 2], 2, 1, 2), glyph(vec![3, 4], 2, 1, 2)];
    let picture = compose_line(&line, 2).unwrap();
    assert_eq!(rows(&picture), vec![vec![1, 2]]);
}

#[test]
fn a_later_glyph_is_drawn_over_an_earlier_one() {
    let line = vec![glyph(vec![1, 1, 1, 1], 4, 1, 2), glyph(vec![0, 7], 2, 1, 4)];
    let picture = compose_line(&line, 100).unwrap();
    assert_eq!(rows(&picture), vec![vec![1, 1, 0, 7, 0, 0]]);
}

#[test]
fn a_width_of_zero_gives_rows_without_columns() {
    let line = vec![glyph(vec![1, 2, 3], 1, 3, 2)];
    let picture = compose_line(&line, 0).unwrap();
    assert_eq!(picture.width(), 0);
    assert_eq!(picture.height(), 3);
    assert_eq!(quantize(&picture), "\n\n");
}

#[test]
fn the_width_is_all_advances_together() {
    let line = vec![glyph(vec![255], 1, 1, 4), glyph(vec![], 0, 0, 3), glyph(vec![255], 1, 1, 5)];
    let picture = compose_line(&line, 100).unwrap();
    assert_eq!(picture.width(), 12);
    assert_eq!(quantize(&picture), "▀      ▀    \n");
}

#[test]
fn huge_glyph_advances_do_not_overflow() {
    let line = vec![glyph(vec![255], 1, 1, usize::MAX), glyph(vec![255], 1, 1, usize::MAX)];
    let picture = compose_line(&line, 3).unwrap();
    assert_eq!(rows(&picture), vec![vec![255, 0, 0]]);
}
