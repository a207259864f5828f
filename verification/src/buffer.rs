//! RGB pixel buffers: row-major byte layout and the inversion pass.

use vstd::prelude::*;

verus! {

/// One pixel's color, three 8-bit channels.
#[derive(Clone, Copy, PartialEq, Eq, Structural, Debug)]
pub struct Rgb {
    pub r: u8,
    pub g: u8,
    pub b: u8,
}

/// A `width` x `height` grid of RGB pixels stored row-major,
/// three bytes per pixel.
pub struct PixelBuffer {
    width: usize,
    height: usize,
    data: Vec<u8>,
}

impl View for PixelBuffer {
    type V = Seq<u8>;

    closed spec fn view(&self) -> Seq<u8> {
        self.data@
    }
}

/// Byte offset of pixel (x, y)'s first channel in a row-major buffer.
pub open spec fn pixel_offset(x: int, y: int, width: int) -> int {
    3 * (y * width + x)
}

impl PixelBuffer {
    /// The byte vector holds exactly three bytes per pixel.
    pub closed spec fn wf(&self) -> bool {
        self.data@.len() == self.width * self.height * 3
    }

    pub closed spec fn spec_width(&self) -> int {
        self.width as int
    }

    pub closed spec fn spec_height(&self) -> int {
        self.height as int
    }

    /// A black (all-zero) buffer of the given dimensions.
    pub fn new(width: usize, height: usize) -> (buf: PixelBuffer)
        requires
            width * height * 3 <= usize::MAX,
        ensures
            buf.wf(),
            buf.spec_width() == width,
            buf.spec_height() == height,
            buf@.len() == width * height * 3,
            forall|i: int| 0 <= i < buf@.len() ==> buf@[i] == 0u8,
    {
        let n: usize = width * height * 3;
        let mut data: Vec<u8> = Vec::new();
        while data.len() < n
            invariant
                data@.len() <= n,
                forall|i: int| 0 <= i < data@.len() ==> data@[i] == 0u8,
            decreases n - data@.len(),
        {
            data.push(0u8);
        }
        PixelBuffer { width, height, data }
    }

    pub fn width(&self) -> (w: usize)
        ensures
            w == self.spec_width(),
    {
        self.width
    }

    pub fn height(&self) -> (h: usize)
        ensures
            h == self.spec_height(),
    {
        self.height
    }

    /// In a well-formed buffer every pixel's three bytes lie inside the data.
    pub proof fn lemma_offset_in_bounds(&self, x: int, y: int)
        requires
            self.wf(),
            0 <= x < self.spec_width(),
            0 <= y < self.spec_height(),
        ensures
            0 <= pixel_offset(x, y, self.spec_width()),
            pixel_offset(x, y, self.spec_width()) + 2 < self@.len(),
            self@.len() == self.spec_width() * self.spec_height() * 3,
    {
        let w = self.spec_width();
        let h = self.spec_height();
        assert(0 <= y * w + x && y * w + x < w * h) by (nonlinear_arith)
            requires
                0 <= x < w,
                0 <= y < h,
        ;
    }

    /// Writes one pixel's three channel bytes at its row-major offset.
    pub fn set_pixel(&mut self, x: usize, y: usize, color: Rgb)
        requires
            old(self).wf(),
            x < old(self).spec_width(),
            y < old(self).spec_height(),
        ensures
            final(self).wf(),
            final(self).spec_width() == old(self).spec_width(),
            final(self).spec_height() == old(self).spec_height(),
            final(self)@ == old(self)@
                .update(pixel_offset(x as int, y as int, old(self).spec_width()), color.r)
                .update(pixel_offset(x as int, y as int, old(self).spec_width()) + 1, color.g)
                .update(pixel_offset(x as int, y as int, old(self).spec_width()) + 2, color.b),
    {
        proof {
            old(self).lemma_offset_in_bounds(x as int, y as int);
        }
        let len: usize = self.data.len();
        let i: usize = 3 * (y * self.width + x);
        assert(i + 2 < len);
        self.data[i] = color.r;
        self.data[i + 1] = color.g;
        self.data[i + 2] = color.b;
    }

    /// Reads one pixel's three channel bytes from its row-major offset.
    pub fn get_pixel(&self, x: usize, y: usize) -> (c: Rgb)
        requires
            self.wf(),
            x < self.spec_width(),
            y < self.spec_height(),
        ensures
            c.r == self@[pixel_offset(x as int, y as int, self.spec_width())],
            c.g == self@[pixel_offset(x as int, y as int, self.spec_width()) + 1],
            c.b == self@[pixel_offset(x as int, y as int, self.spec_width()) + 2],
    {
        proof {
            self.lemma_offset_in_bounds(x as int, y as int);
        }
        let len: usize = self.data.len();
        let i: usize = 3 * (y * self.width + x);
        assert(i + 2 < len);
        Rgb { r: self.data[i], g: self.data[i + 1], b: self.data[i + 2] }
    }

    /// Hands the raw row-major bytes over, for encoding outside the library.
    pub fn into_bytes(self) -> (r: Vec<u8>)
        ensures
            r@ == self@,
    {
        self.data
    }

    /// Builds the frame image from one color per pixel, in flat row-major
    /// pixel order: pixel `i` sits at `(i % width, i / width)` and owns
    /// bytes `3 * i .. 3 * i + 3`.
    pub fn from_colors(width: usize, height: usize, colors: &Vec<Rgb>) -> (buf: PixelBuffer)
        requires
            colors@.len() == width * height,
            width * height * 3 <= usize::MAX,
        ensures
            buf.wf(),
            buf.spec_width() == width,
            buf.spec_height() == height,
            buf@.len() == width * height * 3,
            holds_colors(buf@, colors@),
    {
        let mut buf = PixelBuffer::new(width, height);
        let n: usize = colors.len();
        let mut i: usize = 0;
        while i < n
            invariant
                buf.wf(),
                buf.spec_width() == width,
                buf.spec_height() == height,
                buf@.len() == width * height * 3,
                n == colors@.len(),
                colors@.len() == width * height,
                i <= n,
                forall|j: int|
                    0 <= j < i ==> {
                        &&& buf@[3 * j] == colors@[j].r
                        &&& buf@[3 * j + 1] == colors@[j].g
                        &&& buf@[3 * j + 2] == colors@[j].b
                    },
            decreases n - i,
        {
            proof {
                assert(width > 0) by {
                    if width == 0 {
                        assert(width * height == 0) by (nonlinear_arith)
                            requires
                                width == 0,
                        ;
                    }
                }
            }
            let x: usize = i % width;
            let y: usize = i / width;
            proof {
                vstd::arithmetic::div_mod::lemma_mod_bound(i as int, width as int);
                vstd::arithmetic::div_mod::lemma_multiply_divide_lt(
                    i as int,
                    width as int,
                    height as int,
                );
                vstd::arithmetic::div_mod::lemma_fundamental_div_mod(i as int, width as int);
                assert(width as int * (i as int / width as int) == (i as int / width as int)
                    * width as int) by (nonlinear_arith);
                assert(y as int * width as int + x as int == i as int);
                assert(pixel_offset(x as int, y as int, width as int) == 3 * i);
            }
            buf.set_pixel(x, y, colors[i]);
            i = i + 1;
        }
        buf
    }

    /// Photometric inversion: replaces every channel byte `b` by `255 - b`.
    pub fn invert(&mut self)
        requires
            old(self).wf(),
        ensures
            final(self).wf(),
            final(self).spec_width() == old(self).spec_width(),
            final(self).spec_height() == old(self).spec_height(),
            final(self)@ == inverted(old(self)@),
    {
        let n: usize = self.data.len();
        let mut i: usize = 0;
        while i < n
            invariant
                self.width == old(self).width,
                self.height == old(self).height,
                self.data@.len() == old(self).data@.len(),
                n == self.data@.len(),
                i <= n,
                forall|j: int| 0 <= j < i ==> self.data@[j] == (255 - old(self).data@[j]) as u8,
                forall|j: int| i <= j < n ==> self.data@[j] == old(self).data@[j],
            decreases n - i,
        {
            let b: u8 = self.data[i];
            self.data[i] = 255 - b;
            i = i + 1;
        }
        assert(self.data@ =~= inverted(old(self).data@));
    }
}

/// The byte sequence with every byte `b` replaced by `255 - b`.
pub open spec fn inverted(s: Seq<u8>) -> Seq<u8> {
    Seq::new(s.len(), |i: int| (255 - s[i]) as u8)
}

/// `b` holds exactly the bytes that `from_colors` promises for `colors`:
/// three bytes per pixel, pixel `i` owning bytes `3 * i .. 3 * i + 3`.
pub open spec fn holds_colors(b: Seq<u8>, colors: Seq<Rgb>) -> bool {
    &&& b.len() == colors.len() * 3
    &&& forall|i: int|
        0 <= i < colors.len() ==> {
            &&& b[3 * i] == colors[i].r
            &&& b[3 * i + 1] == colors[i].g
            &&& b[3 * i + 2] == colors[i].b
        }
}

/// Rendering a frame from per-pixel colors is deterministic: the contract
/// of `from_colors` pins every byte, so any two byte sequences that
/// satisfy it for the same colors are equal.
pub proof fn lemma_frame_bytes_deterministic(colors: Seq<Rgb>, b1: Seq<u8>, b2: Seq<u8>)
    requires
        holds_colors(b1, colors),
        holds_colors(b2, colors),
    ensures
        b1 == b2,
{
    assert forall|m: int| 0 <= m < b1.len() implies b1[m] == b2[m] by {
        vstd::arithmetic::div_mod::lemma_fundamental_div_mod(m, 3);
        vstd::arithmetic::div_mod::lemma_mod_bound(m, 3);
        assert(3 * (colors.len() as int) == (colors.len() as int) * 3) by (nonlinear_arith);
        vstd::arithmetic::div_mod::lemma_multiply_divide_lt(m, 3, colors.len() as int);
        let i = m / 3;
        assert(0 <= i < colors.len());
        assert(m == 3 * i || m == 3 * i + 1 || m == 3 * i + 2);
        assert(b1[3 * i] == colors[i].r && b1[3 * i + 1] == colors[i].g && b1[3 * i + 2]
            == colors[i].b);
        assert(b2[3 * i] == colors[i].r && b2[3 * i + 1] == colors[i].g && b2[3 * i + 2]
            == colors[i].b);
    }
    assert(b1 =~= b2);
}

/// Inversion is self-inverse: inverting a byte sequence twice gives back
/// the original sequence, since `255 - (255 - b) == b` for every byte.
pub proof fn lemma_inverted_involutive(s: Seq<u8>)
    ensures
        inverted(inverted(s)) == s,
{
    assert(inverted(inverted(s)) =~= s);
}

} // verus!
