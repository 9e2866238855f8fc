use crate::names::has_well_formed_names;
use crate::names::names_well_formed;
use fontdue::Font;
use fontdue::FontSettings;
use std::collections::HashMap;
use vstd::prelude::*;

verus! {

broadcast use vstd::std_specs::hash::group_hash_axioms;

/// `fontdue::Font`, a parsed font. Nothing is known of what it holds.
#[verifier::external_type_specification]
#[verifier::external_body]
pub struct ExFont(Font);

/// Whether `Font::from_bytes` makes a font of these bytes under the default settings.
pub uninterp spec fn font_parses(data: Seq<u8>) -> bool;

/// The bytes that a font was made of. A font does not hold them; the name is given to
/// each font where it is made, and is what the other names go by.
pub uninterp spec fn font_source(font: Font) -> Seq<u8>;

/// What `Font::rasterize` returns for the font made of `data`, a character and a size
/// in whole pixels: the coverage bitmap, then its width and its height. `fontdue` adds
/// up the coverage in an order that it chooses by the kind of machine it is built for,
/// so the name stands for what one build of it returns.
pub uninterp spec fn rasterized(data: Seq<u8>, ch: char, px: u16) -> (Seq<u8>, usize, usize);

/// The advance width that `Font::metrics` reports for the font made of `data`, a
/// character and a size in whole pixels, in whole pixels.
pub uninterp spec fn advance_width(data: Seq<u8>, ch: char, px: u16) -> usize;

/// Calls `Font::from_bytes` with the default settings and drops the error text. The
/// contract names whether there is a font, and says of the font that it was made of
/// these bytes. `fontdue` decodes the font's full name as UTF-16 without a look at its
/// length, so the call is made only on bytes whose names can be decoded.
#[verifier::external_body]
fn parse_font(data: &[u8]) -> (font: Option<Font>)
    requires
        names_well_formed(data@),
    ensures
        font is Some <==> font_parses(data@),
        font matches Some(made) ==> font_source(made) == data@,
{
    Font::from_bytes(data, FontSettings::default()).ok()
}

/// Calls `Font::rasterize` and takes the bitmap with the width and height from the
/// metrics. The contract gives the result its name, by the bytes that the font was made
/// of, and claims that the bitmap holds one byte for each pixel: `fontdue` cuts it to
/// width times height.
#[verifier::external_body]
fn font_rasterize(font: &Font, ch: char, px: u16) -> (glyph: (Vec<u8>, usize, usize))
    ensures
        (glyph.0@, glyph.1, glyph.2) == rasterized(font_source(*font), ch, px),
        glyph.0@.len() == glyph.1 * glyph.2,
{
    let (metrics, bitmap) = font.rasterize(ch, px.into());
    (bitmap, metrics.width, metrics.height)
}

/// Calls `Font::metrics` and converts the advance width to whole pixels, which drops
/// the fraction. The contract only gives the result its name, by the bytes that the
/// font was made of.
#[verifier::external_body]
fn font_advance(font: &Font, ch: char, px: u16) -> (advance: usize)
    ensures
        advance == advance_width(font_source(*font), ch, px),
{
    font.metrics(ch, px.into()).advance_width as usize
}

/// The font that is used for the given bytes: the font made of them, named by the
/// bytes, or none where their names cannot be decoded or they are no font.
pub open spec fn usable_font(data: Seq<u8>) -> Option<Seq<u8>> {
    if names_well_formed(data) && font_parses(data) {
        Some(data)
    } else {
        None
    }
}

/// The bitmap of a character at a size in whole pixels, with its width and height, for
/// the font made of the given bytes. Without a font every character has an empty
/// bitmap.
pub open spec fn glyph_of(font: Option<Seq<u8>>, ch: char, size: u16) -> (Seq<u8>, usize, usize) {
    match font {
        Some(data) => rasterized(data, ch, size),
        None => (Seq::empty(), 0, 0),
    }
}

/// How far the cursor moves after a character at a size in whole pixels, for the font
/// made of the given bytes. Without a font it is six tenths of the size, rounded down.
pub open spec fn advance_of(font: Option<Seq<u8>>, ch: char, size: u16) -> usize {
    match font {
        Some(data) => advance_width(data, ch, size),
        None => (size * 6 / 10) as usize,
    }
}

/// Gives the bitmap and the advance of characters, from a font if it has one. It keeps
/// each bitmap that it has made, by character and size.
pub struct FontRenderer {
    font: Option<Font>,
    font_cache: HashMap<u64, (Vec<u8>, usize, usize)>,
}

/// The key under which the bitmap of a character at a size is kept: the character's
/// code point in the upper bits, the size in the lower sixteen.
pub open spec fn cache_key(ch: char, size: u16) -> u64 {
    (ch as u64 * 65536 + size as u64) as u64
}

/// Distinct pairs of character and size have distinct cache keys.
pub proof fn lemma_cache_key_injective(c1: char, s1: u16, c2: char, s2: u16)
    requires
        cache_key(c1, s1) == cache_key(c2, s2),
    ensures
        c1 == c2,
        s1 == s2,
{
}

impl FontRenderer {
    /// Every bitmap that is kept is the one that the font gives for its character and
    /// size.
    pub closed spec fn wf(&self) -> bool {
        forall|ch: char, size: u16| #[trigger]
            self.font_cache@.contains_key(cache_key(ch, size)) ==> {
                let g = self.font_cache@[cache_key(ch, size)];
                &&& self.font is Some
                &&& (g.0@, g.1, g.2) == rasterized(font_source(self.font->0), ch, size)
                &&& g.0@.len() == g.1 * g.2
            }
    }

    /// The bytes that the font in use was made of, if there is a font.
    pub closed spec fn font_data(&self) -> Option<Seq<u8>> {
        match self.font {
            Some(font) => Some(font_source(font)),
            None => None,
        }
    }

    /// Whether the bitmap of a character at a size is kept.
    pub closed spec fn is_cached(&self, ch: char, size: u16) -> bool {
        self.font_cache@.contains_key(cache_key(ch, size))
    }

    /// Whether this renderer keeps the bitmaps that `before` kept and, at the size
    /// `size`, those of the characters in `drawn`, and no others.
    pub open spec fn keeps(&self, before: &FontRenderer, size: u16, drawn: Set<char>) -> bool {
        forall|c: char, s: u16| #[trigger]
            self.is_cached(c, s) <==> before.is_cached(c, s) || (s == size && drawn.contains(c))
    }

    /// A renderer for the font in `font_data`. Where the names in the bytes cannot be
    /// decoded, or the bytes are no font, it has no font.
    pub fn new(font_data: &[u8]) -> (r: Self)
        ensures
            r.wf(),
            r.font_data() == usable_font(font_data@),
            forall|ch: char, size: u16| !r.is_cached(ch, size),
    {
        let font = if has_well_formed_names(font_data) {
            parse_font(font_data)
        } else {
            None
        };
        FontRenderer { font, font_cache: HashMap::new() }
    }

    /// A renderer without a font.
    pub fn new_empty() -> (r: Self)
        ensures
            r.wf(),
            r.font_data() is None,
            forall|ch: char, size: u16| !r.is_cached(ch, size),
    {
        FontRenderer { font: None, font_cache: HashMap::new() }
    }

    /// The bitmap of a character at a size, with its width and height.
    pub open spec fn glyph(&self, ch: char, size: u16) -> (Seq<u8>, usize, usize) {
        glyph_of(self.font_data(), ch, size)
    }

    /// How far the cursor moves after a character at a size.
    pub open spec fn advance(&self, ch: char, size: u16) -> usize {
        advance_of(self.font_data(), ch, size)
    }

    /// The bitmap of a character at a size in whole pixels, with its width and height.
    /// The bitmap holds one byte for each pixel, row by row from the top. A bitmap that
    /// was made before is taken from those kept; a new one is kept. Without a font the
    /// bitmap is empty and nothing is kept.
    pub fn rasterize_char(&mut self, ch: char, size: u16) -> (r: (Vec<u8>, usize, usize))
        requires
            old(self).wf(),
        ensures
            final(self).wf(),
            (r.0@, r.1, r.2) == old(self).glyph(ch, size),
            r.0@.len() == r.1 * r.2,
            final(self).font_data() == old(self).font_data(),
            final(self).keeps(
                old(self),
                size,
                if old(self).font_data() is Some {
                    set![ch]
                } else {
                    Set::empty()
                },
            ),
    {
        let key: u64 = (ch as u64) * 65536 + (size as u64);
        assert(key == cache_key(ch, size));
        if let Some(cached) = self.font_cache.get(&key) {
            let bitmap = cached.0.clone();
            assert(bitmap@ =~= cached.0@);
            return (bitmap, cached.1, cached.2);
        }
        match &self.font {
            Some(font) => {
                let result = font_rasterize(font, ch, size);
                let bitmap = result.0.clone();
                assert(bitmap@ =~= result.0@);
                self.font_cache.insert(key, (bitmap, result.1, result.2));
                assert forall|c: char, s: u16| cache_key(c, s) == key implies c == ch && s
                    == size by {
                    lemma_cache_key_injective(c, s, ch, size);
                }
                result
            },
            None => (Vec::new(), 0, 0),
        }
    }

    /// How far the cursor moves after a character at a size in whole pixels. Without a
    /// font it is six tenths of the size, rounded down.
    pub fn get_char_advance(&self, ch: char, size: u16) -> (advance: usize)
        ensures
            advance == self.advance(ch, size),
    {
        match &self.font {
            Some(font) => font_advance(font, ch, size),
            None => (size as usize) * 6 / 10,
        }
    }

    /// Whether there is a font.
    pub fn has_font(&self) -> (b: bool)
        ensures
            b == self.font_data() is Some,
    {
        self.font.is_some()
    }
}

} // verus!
