//! Shows Markdown in a text terminal. Text is drawn with a font into a grayscale
//! picture, line by line, and each picture is shown with half-block characters, two
//! rows of pixels to a row of text.

pub mod blocks;
pub mod compose;
pub mod font;
pub mod image;
pub mod markdown;
pub mod names;
pub mod pixels;
pub mod terminal;
pub mod text;
pub mod wrap;
