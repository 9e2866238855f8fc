use crate::text::decimal;
use crate::text::push_decimal;
use vstd::prelude::*;

verus! {

/// The width and height of the picture that `image::load_from_memory_with_format`
/// decodes from these bytes as PNG, or nothing where it reports an error.
pub uninterp spec fn png_size(bytes: Seq<u8>) -> Option<(u32, u32)>;

/// Calls `image::load_from_memory_with_format` for the PNG format and takes the width
/// and height of the decoded picture; an error gives nothing.
#[verifier::external_body]
fn decode_png(bytes: &[u8]) -> (size: Option<(u32, u32)>)
    ensures
        size == png_size(bytes@),
{
    match ::image::load_from_memory_with_format(bytes, ::image::ImageFormat::Png) {
        Ok(picture) => Some((picture.width(), picture.height())),
        Err(_) => None,
    }
}

/// The contents of a file that a document may name as a picture.
pub struct ImageFile {
    pub path: String,
    pub data: Vec<u8>,
}

/// Shows pictures, or says that they could not be loaded.
pub struct ImageProcessor {}

/// What stands for a picture that could not be loaded.
pub open spec fn failure_note(path: Seq<char>) -> Seq<char> {
    "[Failed to load image: "@ + path + "]"@
}

/// What stands for a picture of the given size.
pub open spec fn size_note(width: nat, height: nat) -> Seq<char> {
    "[Unicode block rendering: "@ + decimal(width) + "x"@ + decimal(height) + "]"@
}

/// What stands for the picture at `path`, from the size of the decoded picture, or
/// from nothing where it could not be read or decoded.
pub open spec fn image_note(path: Seq<char>, size: Option<(u32, u32)>) -> Seq<char> {
    match size {
        Some((width, height)) => size_note(width as nat, height as nat),
        None => failure_note(path),
    }
}

/// The size of the picture in a file's bytes, or nothing where there is no file or
/// its bytes are no PNG picture.
pub open spec fn decoded_size(file: Option<Seq<u8>>) -> Option<(u32, u32)> {
    match file {
        Some(bytes) => png_size(bytes),
        None => None,
    }
}

/// What stands for the picture at `path`, from the bytes of the file there, or from
/// nothing where the file could not be read.
pub open spec fn image_art(path: Seq<char>, file: Option<Seq<u8>>) -> Seq<char> {
    image_note(path, decoded_size(file))
}

/// The bytes of a file, if there is one.
pub open spec fn file_view(file: Option<&[u8]>) -> Option<Seq<u8>> {
    match file {
        Some(bytes) => Some(bytes@),
        None => None,
    }
}

/// What stands for a picture of the given size.
pub fn size_text(width: usize, height: usize) -> (shown: String)
    ensures
        shown@ == size_note(width as nat, height as nat),
{
    let mut shown = String::from_str("[Unicode block rendering: ");
    push_decimal(&mut shown, width);
    shown.append("x");
    push_decimal(&mut shown, height);
    shown.append("]");
    shown
}

/// What stands for the picture at `image_path`, from the size of the decoded picture,
/// or from nothing where it could not be read or decoded.
pub fn describe_image(image_path: &str, size: Option<(u32, u32)>) -> (shown: String)
    ensures
        shown@ == image_note(image_path@, size),
{
    match size {
        Some((width, height)) => size_text(width as usize, height as usize),
        None => {
            let mut shown = String::from_str("[Failed to load image: ");
            shown.append(image_path);
            shown.append("]");
            shown
        },
    }
}

impl ImageProcessor {
    /// A processor of pictures.
    pub fn new() -> (processor: Self) {
        ImageProcessor {  }
    }

    /// Shows the picture at `image_path`, whose file holds the bytes `file`; `file` is
    /// nothing where the file could not be read. A picture that can be decoded as PNG
    /// is shown as a note of its size; one that cannot, or whose file could not be
    /// read, as a note that names the path.
    pub fn process_image(&mut self, image_path: &str, file: Option<&[u8]>) -> (shown: String)
        ensures
            shown@ == image_art(image_path@, file_view(file)),
    {
        let size = self.load_image(file);
        describe_image(image_path, size)
    }

    /// Decodes a file's bytes as a PNG picture and gives the picture's width and
    /// height; nothing where there is no file or its bytes are no PNG picture.
    pub fn load_image(&self, file: Option<&[u8]>) -> (size: Option<(u32, u32)>)
        ensures
            size == decoded_size(file_view(file)),
    {
        match file {
            Some(bytes) => decode_png(bytes),
            None => None,
        }
    }

    /// What stands for a picture of the given size.
    pub fn render_unicode_blocks(&self, width: usize, height: usize) -> (shown: String)
        ensures
            shown@ == size_note(width as nat, height as nat),
    {
        size_text(width, height)
    }
}

} // verus!
