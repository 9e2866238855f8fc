use vstd::prelude::*;

verus! {

/// A grayscale image: one byte per pixel, row by row from the top.
pub struct PixelBuffer {
    pixels: Vec<u8>,
    width: usize,
    height: usize,
}

/// The place of pixel (`x`, `y`) in a row-major buffer that is `width` pixels wide.
pub open spec fn pixel_index(width: int, x: int, y: int) -> int {
    y * width + x
}

/// A pixel inside a buffer has its place inside the buffer's bytes.
pub proof fn lemma_pixel_index_bounds(width: int, height: int, x: int, y: int)
    requires
        0 <= x < width,
        0 <= y < height,
    ensures
        0 <= pixel_index(width, x, y) < width * height,
        y * width + width <= width * height,
{
    assert(y * width + width <= width * height) by (nonlinear_arith)
        requires
            0 <= y < height,
            0 <= width,
    ;
    assert(0 <= y * width) by (nonlinear_arith)
        requires
            0 <= y,
            0 <= width,
    ;
}

/// Two pixels of a buffer that share a place are the same pixel.
pub proof fn lemma_pixel_index_injective(width: int, x1: int, y1: int, x2: int, y2: int)
    requires
        0 <= x1 < width,
        0 <= x2 < width,
        0 <= y1,
        0 <= y2,
        pixel_index(width, x1, y1) == pixel_index(width, x2, y2),
    ensures
        x1 == x2,
        y1 == y2,
{
    assert(y1 == y2) by (nonlinear_arith)
        requires
            0 <= x1 < width,
            0 <= x2 < width,
            0 <= y1,
            0 <= y2,
            y1 * width + x1 == y2 * width + x2,
    ;
    assert(y1 * width == y2 * width);
}

impl PixelBuffer {
    #[verifier::type_invariant]
    spec fn well_formed(self) -> bool {
        self.pixels@.len() == self.width * self.height
    }

    /// The buffer's bytes, row by row.
    pub closed spec fn data(&self) -> Seq<u8> {
        self.pixels@
    }

    /// The number of pixels in a row.
    pub closed spec fn cols(&self) -> nat {
        self.width as nat
    }

    /// The number of rows.
    pub closed spec fn rows(&self) -> nat {
        self.height as nat
    }

    /// A buffer over the given bytes, where there is one byte for each pixel.
    pub fn from_raw(pixels: Vec<u8>, width: usize, height: usize) -> (buffer: Option<Self>)
        ensures
            buffer is Some <==> pixels@.len() == width * height,
            buffer matches Some(b) ==> b.data() == pixels@ && b.cols() == width && b.rows()
                == height,
    {
        let len = pixels.len();
        match width.checked_mul(height) {
            Some(size) => {
                if len == size {
                    Some(PixelBuffer { pixels, width, height })
                } else {
                    None
                }
            },
            None => None,
        }
    }

    /// A buffer over bytes that are known to be one for each pixel.
    pub(crate) fn from_parts(pixels: Vec<u8>, width: usize, height: usize) -> (buffer: Self)
        requires
            pixels@.len() == width * height,
        ensures
            buffer.data() == pixels@,
            buffer.cols() == width,
            buffer.rows() == height,
    {
        PixelBuffer { pixels, width, height }
    }

    /// A buffer in which every pixel is background.
    pub fn new(width: usize, height: usize) -> (buffer: Self)
        ensures
            buffer.cols() == width,
            buffer.rows() == height,
            buffer.data() == Seq::new((width * height) as nat, |i: int| 0u8),
    {
        let pixels = blank_pixels(width, height);
        PixelBuffer { pixels, width, height }
    }

    /// The number of pixels in a row.
    pub fn width(&self) -> (w: usize)
        ensures
            w == self.cols(),
    {
        self.width
    }

    /// The number of rows.
    pub fn height(&self) -> (h: usize)
        ensures
            h == self.rows(),
    {
        self.height
    }

    /// The brightness of pixel (`x`, `y`).
    pub fn get(&self, x: usize, y: usize) -> (px: u8)
        requires
            x < self.cols(),
            y < self.rows(),
        ensures
            px == self.data()[pixel_index(self.cols() as int, x as int, y as int)],
    {
        proof {
            use_type_invariant(self);
            lemma_pixel_index_bounds(self.width as int, self.height as int, x as int, y as int);
            assert(self.pixels.len() == self.width * self.height);
        }
        self.pixels[y * self.width + x]
    }
}

/// As many background bytes as a buffer of the given size has pixels.
pub(crate) fn blank_pixels(width: usize, height: usize) -> (pixels: Vec<u8>)
    ensures
        pixels@.len() == width * height,
        pixels@ == Seq::new((width * height) as nat, |i: int| 0u8),
{
    let mut pixels: Vec<u8> = Vec::new();
    let mut y: usize = 0;
    while y < height
        invariant
            y <= height,
            pixels@.len() == y * width,
            forall|i: int| 0 <= i < pixels@.len() ==> pixels@[i] == 0u8,
        decreases height - y,
    {
        let mut x: usize = 0;
        while x < width
            invariant
                x <= width,
                pixels@.len() == y * width + x,
                forall|i: int| 0 <= i < pixels@.len() ==> pixels@[i] == 0u8,
            decreases width - x,
        {
            pixels.push(0u8);
            x += 1;
        }
        assert((y + 1) * width == y * width + width) by (nonlinear_arith);
        y += 1;
    }
    assert(height * width == width * height) by (nonlinear_arith);
    assert(pixels@ =~= Seq::new((width * height) as nat, |i: int| 0u8));
    pixels
}

} // verus!
