//! An owned, mutable 2D pixel buffer in RGBA8 layout (row-major, four bytes
//! per pixel), together with crop, content-preserving resize and blit
//! operations.  This is the backing store that the atlas packer composes
//! placed images into.

use vstd::prelude::*;

verus! {

/// Mathematical model of an [`Image`]: its dimensions and the flat byte
/// sequence of its pixel buffer.
pub struct ImageView {
    pub width: nat,
    pub height: nat,
    pub data: Seq<u8>,
}

/// Byte index of channel `c` of the pixel at `(x, y)` in a row-major RGBA8
/// buffer of row length `w`.
pub open spec fn pix_idx(w: int, x: int, y: int, c: int) -> int {
    (x + y * w) * 4 + c
}

/// Byte index of channel `c` of the `k`-th pixel of a flat RGBA8 buffer.
pub open spec fn byte_idx(k: int, c: int) -> int {
    k * 4 + c
}

impl ImageView {
    /// The buffer holds exactly four bytes per pixel, and the whole byte
    /// count fits in a `u32` so that index arithmetic never overflows.
    pub open spec fn wf(self) -> bool {
        &&& self.data.len() == self.width * self.height * 4
        &&& self.width * self.height * 4 <= u32::MAX
    }

    /// Byte index of channel `c` of the pixel at `(x, y)`.
    pub open spec fn pix_index(self, x: int, y: int, c: int) -> int {
        pix_idx(self.width as int, x, y, c)
    }

    /// Channel `c` (0 = red, 1 = green, 2 = blue, 3 = alpha) of the pixel at
    /// `(x, y)`.
    pub open spec fn chan(self, x: int, y: int, c: int) -> u8 {
        self.data[self.pix_index(x, y, c)]
    }
}

/// Channel `c` of a packed `0xRRGGBBAA` color value.
pub open spec fn color_channel_byte(color: u32, c: int) -> u8 {
    if c == 0 {
        ((color & 0xFF_00_00_00) >> 24) as u8
    } else if c == 1 {
        ((color & 0x00_FF_00_00) >> 16) as u8
    } else if c == 2 {
        ((color & 0x00_00_FF_00) >> 8) as u8
    } else {
        (color & 0x00_00_00_FF) as u8
    }
}

/// The byte index of channel `c` of pixel `(x, y)` lies inside the buffer.
pub proof fn lemma_pix_index_in_bounds(w: int, h: int, x: int, y: int, c: int)
    by (nonlinear_arith)
    requires
        0 <= x < w,
        0 <= y < h,
        0 <= c < 4,
    ensures
        0 <= (x + y * w) * 4 + c < w * h * 4,
{
}

/// Distinct `(x, y, c)` triples address distinct bytes of the buffer.
pub proof fn lemma_pix_index_injective(w: int, x1: int, y1: int, c1: int, x2: int, y2: int, c2: int)
    by (nonlinear_arith)
    requires
        0 <= x1 < w,
        0 <= c1 < 4,
        0 <= x2 < w,
        0 <= c2 < 4,
        0 <= y1,
        0 <= y2,
        (x1 + y1 * w) * 4 + c1 == (x2 + y2 * w) * 4 + c2,
    ensures
        x1 == x2 && y1 == y2 && c1 == c2,
{
}

/// Contrapositive of [`lemma_pix_index_injective`]: distinct triples give
/// distinct byte indices.
pub proof fn lemma_pix_index_distinct(w: int, x1: int, y1: int, c1: int, x2: int, y2: int, c2: int)
    requires
        0 <= x1 < w,
        0 <= c1 < 4,
        0 <= x2 < w,
        0 <= c2 < 4,
        0 <= y1,
        0 <= y2,
        !(x1 == x2 && y1 == y2 && c1 == c2),
    ensures
        (x1 + y1 * w) * 4 + c1 != (x2 + y2 * w) * 4 + c2,
{
    if (x1 + y1 * w) * 4 + c1 == (x2 + y2 * w) * 4 + c2 {
        lemma_pix_index_injective(w, x1, y1, c1, x2, y2, c2);
    }
}

/// An owned RGBA8 pixel buffer of `width * height` pixels.
pub struct Image {
    width: u32,
    height: u32,
    buffer: Vec<u8>,
}

impl View for Image {
    type V = ImageView;

    closed spec fn view(&self) -> ImageView {
        ImageView { width: self.width as nat, height: self.height as nat, data: self.buffer@ }
    }
}

impl Image {
    /// Wraps an existing buffer; the buffer must already have the RGBA8 size
    /// for the given dimensions.
    pub fn new(width: u32, height: u32, buffer: Vec<u8>) -> (r: Image)
        requires
            buffer@.len() == width * height * 4,
            width * height * 4 <= u32::MAX,
        ensures
            r@ == (ImageView { width: width as nat, height: height as nat, data: buffer@ }),
            r@.wf(),
    {
        Image { width, height, buffer }
    }

    pub fn width(&self) -> (r: u32)
        ensures
            r == self@.width,
    {
        self.width
    }

    pub fn height(&self) -> (r: u32)
        ensures
            r == self@.height,
    {
        self.height
    }

    pub fn get_buffer(&self) -> (r: &Vec<u8>)
        ensures
            r@ == self@.data,
    {
        &self.buffer
    }

    /// A `width * height` image with every pixel set to the packed
    /// `0xRRGGBBAA` color.
    pub fn from_color(width: u32, height: u32, color: u32) -> (r: Image)
        requires
            width * height * 4 <= u32::MAX,
        ensures
            r@.wf(),
            r@.width == width,
            r@.height == height,
            forall|k: int| 0 <= k < r@.data.len() ==> r@.data[k] == color_channel_byte(color, k % 4),
    {
        let total: u32 = width * height * 4;
        let mut pixels: Vec<u8> = Vec::new();
        let mut i: u32 = 0;
        while i < total
            invariant
                i <= total,
                total == width * height * 4,
                pixels@.len() == i,
                forall|k: int| 0 <= k < i ==> pixels@[k] == color_channel_byte(color, k % 4),
            decreases total - i,
        {
            let c: u32 = i % 4;
            let b: u8 = if c == 0 {
                ((color & 0xFF_00_00_00) >> 24) as u8
            } else if c == 1 {
                ((color & 0x00_FF_00_00) >> 16) as u8
            } else if c == 2 {
                ((color & 0x00_00_FF_00) >> 8) as u8
            } else {
                (color & 0x00_00_00_FF) as u8
            };
            pixels.push(b);
            i = i + 1;
        }
        Image { width, height, buffer: pixels }
    }

    /// Reads channel `c` of the pixel at `(x, y)`.
    fn chan_at(&self, x: u32, y: u32, c: u32) -> (r: u8)
        requires
            self@.wf(),
            x < self@.width,
            y < self@.height,
            c < 4,
        ensures
            r == self@.chan(x as int, y as int, c as int),
    {
        proof {
            lemma_pix_index_in_bounds(
                self@.width as int,
                self@.height as int,
                x as int,
                y as int,
                c as int,
            );
        }
        let idx: u32 = (x + y * self.width) * 4 + c;
        self.buffer[idx as usize]
    }

    /// Writes channel `c` of the pixel at `(x, y)`; every other byte of the
    /// buffer is left unchanged.
    fn set_chan_at(&mut self, x: u32, y: u32, c: u32, value: u8)
        requires
            old(self)@.wf(),
            x < old(self)@.width,
            y < old(self)@.height,
            c < 4,
        ensures
            final(self)@.wf(),
            final(self)@.width == old(self)@.width,
            final(self)@.height == old(self)@.height,
            final(self)@.chan(x as int, y as int, c as int) == value,
            forall|xx: int, yy: int, cc: int|
                0 <= xx < old(self)@.width && 0 <= yy < old(self)@.height && 0 <= cc < 4
                    && !(xx == x as int && yy == y as int && cc == c as int)
                    ==> final(self)@.chan(xx, yy, cc) == old(self)@.chan(xx, yy, cc),
    {
        proof {
            lemma_pix_index_in_bounds(
                self@.width as int,
                self@.height as int,
                x as int,
                y as int,
                c as int,
            );
        }
        let idx: u32 = (x + y * self.width) * 4 + c;
        self.buffer[idx as usize] = value;
        proof {
            assert forall|xx: int, yy: int, cc: int|
                0 <= xx < old(self)@.width && 0 <= yy < old(self)@.height && 0 <= cc < 4
                    && !(xx == x as int && yy == y as int && cc == c as int)
                    implies final(self)@.chan(xx, yy, cc) == old(self)@.chan(xx, yy, cc) by {
                lemma_pix_index_in_bounds(self@.width as int, self@.height as int, xx, yy, cc);
                lemma_pix_index_distinct(
                    self@.width as int,
                    xx,
                    yy,
                    cc,
                    x as int,
                    y as int,
                    c as int,
                );
            }
        }
    }

    pub fn get_r8(&self, x: u32, y: u32) -> (r: u8)
        requires
            self@.wf(),
            x < self@.width,
            y < self@.height,
        ensures
            r == self@.chan(x as int, y as int, 0),
    {
        self.chan_at(x, y, 0)
    }

    pub fn get_g8(&self, x: u32, y: u32) -> (r: u8)
        requires
            self@.wf(),
            x < self@.width,
            y < self@.height,
        ensures
            r == self@.chan(x as int, y as int, 1),
    {
        self.chan_at(x, y, 1)
    }

    pub fn get_b8(&self, x: u32, y: u32) -> (r: u8)
        requires
            self@.wf(),
            x < self@.width,
            y < self@.height,
        ensures
            r == self@.chan(x as int, y as int, 2),
    {
        self.chan_at(x, y, 2)
    }

    pub fn get_a8(&self, x: u32, y: u32) -> (r: u8)
        requires
            self@.wf(),
            x < self@.width,
            y < self@.height,
        ensures
            r == self@.chan(x as int, y as int, 3),
    {
        self.chan_at(x, y, 3)
    }

    pub fn set_r8(&mut self, x: u32, y: u32, color: u8)
        requires
            old(self)@.wf(),
            x < old(self)@.width,
            y < old(self)@.height,
        ensures
            final(self)@.wf(),
            final(self)@.width == old(self)@.width,
            final(self)@.height == old(self)@.height,
            final(self)@.chan(x as int, y as int, 0) == color,
            forall|xx: int, yy: int, cc: int|
                0 <= xx < old(self)@.width && 0 <= yy < old(self)@.height && 0 <= cc < 4
                    && !(xx == x as int && yy == y as int && cc == 0)
                    ==> final(self)@.chan(xx, yy, cc) == old(self)@.chan(xx, yy, cc),
    {
        self.set_chan_at(x, y, 0, color)
    }

    pub fn set_g8(&mut self, x: u32, y: u32, color: u8)
        requires
            old(self)@.wf(),
            x < old(self)@.width,
            y < old(self)@.height,
        ensures
            final(self)@.wf(),
            final(self)@.width == old(self)@.width,
            final(self)@.height == old(self)@.height,
            final(self)@.chan(x as int, y as int, 1) == color,
            forall|xx: int, yy: int, cc: int|
                0 <= xx < old(self)@.width && 0 <= yy < old(self)@.height && 0 <= cc < 4
                    && !(xx == x as int && yy == y as int && cc == 1)
                    ==> final(self)@.chan(xx, yy, cc) == old(self)@.chan(xx, yy, cc),
    {
        self.set_chan_at(x, y, 1, color)
    }

    pub fn set_b8(&mut self, x: u32, y: u32, color: u8)
        requires
            old(self)@.wf(),
            x < old(self)@.width,
            y < old(self)@.height,
        ensures
            final(self)@.wf(),
            final(self)@.width == old(self)@.width,
            final(self)@.height == old(self)@.height,
            final(self)@.chan(x as int, y as int, 2) == color,
            forall|xx: int, yy: int, cc: int|
                0 <= xx < old(self)@.width && 0 <= yy < old(self)@.height && 0 <= cc < 4
                    && !(xx == x as int && yy == y as int && cc == 2)
                    ==> final(self)@.chan(xx, yy, cc) == old(self)@.chan(xx, yy, cc),
    {
        self.set_chan_at(x, y, 2, color)
    }

    pub fn set_a8(&mut self, x: u32, y: u32, color: u8)
        requires
            old(self)@.wf(),
            x < old(self)@.width,
            y < old(self)@.height,
        ensures
            final(self)@.wf(),
            final(self)@.width == old(self)@.width,
            final(self)@.height == old(self)@.height,
            final(self)@.chan(x as int, y as int, 3) == color,
            forall|xx: int, yy: int, cc: int|
                0 <= xx < old(self)@.width && 0 <= yy < old(self)@.height && 0 <= cc < 4
                    && !(xx == x as int && yy == y as int && cc == 3)
                    ==> final(self)@.chan(xx, yy, cc) == old(self)@.chan(xx, yy, cc),
    {
        self.set_chan_at(x, y, 3, color)
    }
}

/// The packed `0xRRGGBBAA` value of the pixel at `(x, y)`.
pub open spec fn rgba_at(v: ImageView, x: int, y: int) -> u32 {
    (((v.chan(x, y, 0) as u32) << 24) + ((v.chan(x, y, 1) as u32) << 16) + ((v.chan(
        x,
        y,
        2,
    ) as u32) << 8) + (v.chan(x, y, 3) as u32)) as u32
}

impl Image {
    /// Reads the pixel at `(x, y)` as one packed `0xRRGGBBAA` value.
    pub fn get_rgba8(&self, x: u32, y: u32) -> (r: u32)
        requires
            self@.wf(),
            x < self@.width,
            y < self@.height,
        ensures
            r == rgba_at(self@, x as int, y as int),
    {
        let r0: u32 = self.chan_at(x, y, 0) as u32;
        let r1: u32 = self.chan_at(x, y, 1) as u32;
        let r2: u32 = self.chan_at(x, y, 2) as u32;
        let r3: u32 = self.chan_at(x, y, 3) as u32;
        proof {
            assert((r0 << 24) + (r1 << 16) + (r2 << 8) + r3 <= u32::MAX) by (bit_vector)
                requires
                    r0 < 256,
                    r1 < 256,
                    r2 < 256,
                    r3 < 256,
            ;
        }
        (r0 << 24) + (r1 << 16) + (r2 << 8) + r3
    }

    /// Overwrites the pixel at `(x, y)` with the packed `0xRRGGBBAA` value.
    pub fn set_rgba8(&mut self, x: u32, y: u32, color: u32)
        requires
            old(self)@.wf(),
            x < old(self)@.width,
            y < old(self)@.height,
        ensures
            final(self)@.wf(),
            final(self)@.width == old(self)@.width,
            final(self)@.height == old(self)@.height,
            forall|cc: int|
                0 <= cc < 4 ==> final(self)@.chan(x as int, y as int, cc) == color_channel_byte(
                    color,
                    cc,
                ),
            forall|xx: int, yy: int, cc: int|
                0 <= xx < old(self)@.width && 0 <= yy < old(self)@.height && 0 <= cc < 4
                    && !(xx == x as int && yy == y as int)
                    ==> final(self)@.chan(xx, yy, cc) == old(self)@.chan(xx, yy, cc),
    {
        self.set_chan_at(x, y, 0, ((color & 0xFF_00_00_00) >> 24) as u8);
        self.set_chan_at(x, y, 1, ((color & 0x00_FF_00_00) >> 16) as u8);
        self.set_chan_at(x, y, 2, ((color & 0x00_00_FF_00) >> 8) as u8);
        self.set_chan_at(x, y, 3, (color & 0x00_00_00_FF) as u8);
    }
}

/// Every channel of the packed color `0` is the byte `0`.
pub proof fn lemma_zero_color_channel(c: int)
    ensures
        color_channel_byte(0, c) == 0,
{
    assert(((0u32 & 0xFF_00_00_00) >> 24) as u8 == 0) by (bit_vector);
    assert(((0u32 & 0x00_FF_00_00) >> 16) as u8 == 0) by (bit_vector);
    assert(((0u32 & 0x00_00_FF_00) >> 8) as u8 == 0) by (bit_vector);
    assert((0u32 & 0x00_00_00_FF) as u8 == 0) by (bit_vector);
}

/// Relates the byte index of a pixel to the byte index of the mirrored pixel
/// (both axes reversed).
proof fn lemma_flip_index(w: int, h: int, x: int, y: int)
    by (nonlinear_arith)
    requires
        0 <= x < w,
        0 <= y < h,
    ensures
        (w - 1 - x) + (h - 1 - y) * w == w * h - 1 - (x + y * w),
        0 <= x + y * w < w * h,
{
}

impl Image {
    /// Copies the `width * height` sub-rectangle whose top-left corner is at
    /// `(x, y)` into a fresh image.
    pub fn crop(&self, x: u32, y: u32, width: u32, height: u32) -> (r: Image)
        requires
            self@.wf(),
            x + width <= self@.width,
            y + height <= self@.height,
        ensures
            r@.wf(),
            r@.width == width,
            r@.height == height,
            forall|ii: int, jj: int, cc: int|
                0 <= ii < width && 0 <= jj < height && 0 <= cc < 4 ==> r@.chan(ii, jj, cc)
                    == self@.chan(x + ii, y + jj, cc),
    {
        proof {
            assert(width * height * 4 <= self@.width * self@.height * 4) by (nonlinear_arith)
                requires
                    width <= self@.width,
                    height <= self@.height,
            ;
        }
        let mut pixels: Vec<u8> = Vec::new();
        let mut j: u32 = 0;
        while j < height
            invariant
                j <= height,
                self@.wf(),
                x + width <= self@.width,
                y + height <= self@.height,
                pixels@.len() == j * width * 4,
                width * height * 4 <= u32::MAX,
                forall|ii: int, jj: int, cc: int|
                    0 <= ii < width && 0 <= jj < j && 0 <= cc < 4 ==> pixels@[#[trigger] pix_idx(
                        width as int,
                        ii,
                        jj,
                        cc,
                    )] == self@.chan(x + ii, y + jj, cc),
            decreases height - j,
        {
            let mut i: u32 = 0;
            while i < width
                invariant
                    i <= width,
                    j < height,
                    self@.wf(),
                    x + width <= self@.width,
                    y + height <= self@.height,
                    pixels@.len() == j * width * 4 + i * 4,
                    width * height * 4 <= u32::MAX,
                    forall|ii: int, jj: int, cc: int|
                        0 <= ii < width && 0 <= jj < j && 0 <= cc < 4 ==> pixels@[
                            #[trigger] pix_idx(width as int, ii, jj, cc)] == self@.chan(
                            x + ii,
                            y + jj,
                            cc,
                        ),
                    forall|ii: int, cc: int|
                        0 <= ii < i && 0 <= cc < 4 ==> pixels@[#[trigger] pix_idx(
                            width as int,
                            ii,
                            j as int,
                            cc,
                        )] == self@.chan(x + ii, y + j, cc),
                decreases width - i,
            {
                let ghost p0: Seq<u8> = pixels@;
                pixels.push(self.get_r8(x + i, y + j));
                pixels.push(self.get_g8(x + i, y + j));
                pixels.push(self.get_b8(x + i, y + j));
                pixels.push(self.get_a8(x + i, y + j));
                proof {
                    assert forall|ii: int, jj: int, cc: int|
                        0 <= ii < width && 0 <= jj < j && 0 <= cc < 4 implies pixels@[
                        #[trigger] pix_idx(width as int, ii, jj, cc)] == self@.chan(
                        x + ii,
                        y + jj,
                        cc,
                    ) by {
                        let idx = pix_idx(width as int, ii, jj, cc);
                        assert(0 <= idx < (j as int) * (width as int) * 4) by (nonlinear_arith)
                            requires
                                0 <= ii < width,
                                0 <= jj < j,
                                0 <= cc < 4,
                                idx == (ii + jj * (width as int)) * 4 + cc,
                        ;
                        assert(p0[idx] == self@.chan(x + ii, y + jj, cc));
                        assert(pixels@[idx] == p0[idx]);
                    }
                    assert forall|ii: int, cc: int|
                        0 <= ii < i + 1 && 0 <= cc < 4 implies pixels@[#[trigger] pix_idx(
                        width as int,
                        ii,
                        j as int,
                        cc,
                    )] == self@.chan(x + ii, y + j, cc) by {
                        let idx = pix_idx(width as int, ii, j as int, cc);
                        if ii < i {
                            assert(0 <= idx < (j as int) * (width as int) * 4 + i * 4)
                                by (nonlinear_arith)
                                requires
                                    0 <= ii < i,
                                    0 <= cc < 4,
                                    0 <= j,
                                    0 <= width,
                                    idx == (ii + (j as int) * (width as int)) * 4 + cc,
                            ;
                            assert(p0[idx] == self@.chan(x + ii, y + j, cc));
                            assert(pixels@[idx] == p0[idx]);
                        } else {
                            assert(idx == p0.len() + cc) by (nonlinear_arith)
                                requires
                                    ii == i,
                                    idx == (ii + (j as int) * (width as int)) * 4 + cc,
                                    p0.len() == (j as int) * (width as int) * 4 + i * 4,
                            ;
                        }
                    }
                }
                i = i + 1;
            }
            proof {
                assert(((j as int) + 1) * (width as int) * 4 == (j as int) * (width as int) * 4 + (
                width as int) * 4) by (nonlinear_arith);
            }
            j = j + 1;
        }
        proof {
            assert((height as int) * (width as int) * 4 == (width as int) * (height as int) * 4)
                by (nonlinear_arith);
        }
        let r = Image::new(width, height, pixels);
        proof {
            assert forall|ii: int, jj: int, cc: int|
                0 <= ii < width && 0 <= jj < height && 0 <= cc < 4 implies r@.chan(ii, jj, cc)
                == self@.chan(x + ii, y + jj, cc) by {
                lemma_pix_index_in_bounds(width as int, height as int, ii, jj, cc);
            }
        }
        r
    }

    /// Blits `image` into `self` with its top-left corner at `(x, y)`.
    /// Pixels outside the blitted rectangle keep their previous value.
    pub fn draw(&mut self, x: u32, y: u32, image: Image)
        requires
            old(self)@.wf(),
            image@.wf(),
            x + image@.width <= old(self)@.width,
            y + image@.height <= old(self)@.height,
        ensures
            final(self)@.wf(),
            final(self)@.width == old(self)@.width,
            final(self)@.height == old(self)@.height,
            forall|ii: int, jj: int, cc: int|
                0 <= ii < image@.width && 0 <= jj < image@.height && 0 <= cc < 4
                    ==> final(self)@.chan(x + ii, y + jj, cc) == image@.chan(ii, jj, cc),
            forall|xx: int, yy: int, cc: int|
                0 <= xx < old(self)@.width && 0 <= yy < old(self)@.height && 0 <= cc < 4 && !(x
                    <= xx < x + image@.width && y <= yy < y + image@.height)
                    ==> final(self)@.chan(xx, yy, cc) == old(self)@.chan(xx, yy, cc),
    {
        let ghost orig: ImageView = self@;
        let iw = image.width();
        let ih = image.height();
        let mut i: u32 = 0;
        while i < iw
            invariant
                i <= iw,
                self@.wf(),
                image@.wf(),
                iw == image@.width,
                ih == image@.height,
                self@.width == orig.width,
                self@.height == orig.height,
                x + iw <= orig.width,
                y + ih <= orig.height,
                forall|ii: int, jj: int, cc: int|
                    0 <= ii < i && 0 <= jj < ih && 0 <= cc < 4 ==> self@.chan(x + ii, y + jj, cc)
                        == image@.chan(ii, jj, cc),
                forall|xx: int, yy: int, cc: int|
                    0 <= xx < orig.width && 0 <= yy < orig.height && 0 <= cc < 4 && !(x <= xx < x
                        + i && y <= yy < y + ih) ==> self@.chan(xx, yy, cc) == orig.chan(
                        xx,
                        yy,
                        cc,
                    ),
            decreases iw - i,
        {
            let mut j: u32 = 0;
            while j < ih
                invariant
                    j <= ih,
                    i < iw,
                    self@.wf(),
                    image@.wf(),
                    iw == image@.width,
                    ih == image@.height,
                    self@.width == orig.width,
                    self@.height == orig.height,
                    x + iw <= orig.width,
                    y + ih <= orig.height,
                    forall|ii: int, jj: int, cc: int|
                        0 <= ii < i && 0 <= jj < ih && 0 <= cc < 4 ==> self@.chan(
                            x + ii,
                            y + jj,
                            cc,
                        ) == image@.chan(ii, jj, cc),
                    forall|jj: int, cc: int|
                        0 <= jj < j && 0 <= cc < 4 ==> self@.chan(x + i, y + jj, cc)
                            == image@.chan(i as int, jj, cc),
                    forall|xx: int, yy: int, cc: int|
                        0 <= xx < orig.width && 0 <= yy < orig.height && 0 <= cc < 4 && !(x <= xx
                            < x + i && y <= yy < y + ih) && !(xx == x + i && y <= yy < y + j)
                            ==> self@.chan(xx, yy, cc) == orig.chan(xx, yy, cc),
                decreases ih - j,
            {
                let b0 = image.get_r8(i, j);
                let b1 = image.get_g8(i, j);
                let b2 = image.get_b8(i, j);
                let b3 = image.get_a8(i, j);
                self.set_chan_at(x + i, y + j, 0, b0);
                self.set_chan_at(x + i, y + j, 1, b1);
                self.set_chan_at(x + i, y + j, 2, b2);
                self.set_chan_at(x + i, y + j, 3, b3);
                j = j + 1;
            }
            i = i + 1;
        }
    }

    /// Grows or shrinks the canvas to `width * height`.  Content in the
    /// top-left region common to the old and new sizes is preserved; any
    /// newly exposed pixels are transparent black.
    pub fn resize(&mut self, width: u32, height: u32)
        requires
            old(self)@.wf(),
            width * height * 4 <= u32::MAX,
        ensures
            final(self)@.wf(),
            final(self)@.width == width,
            final(self)@.height == height,
            forall|xx: int, yy: int, cc: int|
                0 <= xx < width && 0 <= yy < height && 0 <= cc < 4 ==> final(self)@.chan(xx, yy, cc)
                    == (if xx < old(self)@.width && yy < old(self)@.height {
                    old(self)@.chan(xx, yy, cc)
                } else {
                    0u8
                }),
    {
        let mut crop_width = width;
        if self.width < width {
            crop_width = self.width;
        }
        let mut crop_height = height;
        if self.height < height {
            crop_height = self.height;
        }
        let cropped = self.crop(0, 0, crop_width, crop_height);
        let mut resized = Image::from_color(width, height, 0x00_00_00_00);
        proof {
            assert forall|xx: int, yy: int, cc: int|
                0 <= xx < width && 0 <= yy < height && 0 <= cc < 4 implies resized@.chan(
                xx,
                yy,
                cc,
            ) == 0u8 by {
                lemma_pix_index_in_bounds(width as int, height as int, xx, yy, cc);
                lemma_zero_color_channel(((xx + yy * width) * 4 + cc) % 4);
                assert(((xx + yy * width) * 4 + cc) % 4 == cc) by (nonlinear_arith)
                    requires
                        0 <= cc < 4,
                ;
            }
        }
        let ghost before_draw: ImageView = resized@;
        let ghost cropped_view: ImageView = cropped@;
        resized.draw(0, 0, cropped);
        *self = resized;
        proof {
            assert forall|xx: int, yy: int, cc: int|
                0 <= xx < width && 0 <= yy < height && 0 <= cc < 4 implies final(self)@.chan(
                xx,
                yy,
                cc,
            ) == (if xx < old(self)@.width && yy < old(self)@.height {
                old(self)@.chan(xx, yy, cc)
            } else {
                0u8
            }) by {
                if xx < old(self)@.width && yy < old(self)@.height {
                    assert(xx < crop_width && yy < crop_height);
                    assert(final(self)@.chan(xx, yy, cc) == cropped_view.chan(xx, yy, cc));
                } else {
                    assert(!(0 <= xx < crop_width && 0 <= yy < crop_height));
                    assert(final(self)@.chan(xx, yy, cc) == before_draw.chan(xx, yy, cc));
                }
            }
        }
    }

    /// Returns the image rotated a half turn: the pixel at `(x, y)` of the
    /// result is the pixel at `(width-1-x, height-1-y)` of the source.
    pub fn flip_horizontally(&self) -> (r: Image)
        requires
            self@.wf(),
        ensures
            r@.wf(),
            r@.width == self@.width,
            r@.height == self@.height,
            forall|xx: int, yy: int, cc: int|
                0 <= xx < self@.width && 0 <= yy < self@.height && 0 <= cc < 4 ==> r@.chan(
                    xx,
                    yy,
                    cc,
                ) == self@.chan(self@.width - 1 - xx, self@.height - 1 - yy, cc),
    {
        let n: u32 = self.width * self.height;
        let mut buff: Vec<u8> = Vec::new();
        let mut k: u32 = 0;
        while k < n
            invariant
                k <= n,
                self@.wf(),
                n == self@.width * self@.height,
                buff@.len() == k * 4,
                forall|kk: int, cc: int|
                    0 <= kk < k && 0 <= cc < 4 ==> buff@[#[trigger] byte_idx(kk, cc)]
                        == self@.data[byte_idx(n - 1 - kk, cc)],
            decreases n - k,
        {
            let base: u32 = (n - 1 - k) * 4;
            buff.push(self.buffer[base as usize]);
            buff.push(self.buffer[(base + 1) as usize]);
            buff.push(self.buffer[(base + 2) as usize]);
            buff.push(self.buffer[(base + 3) as usize]);
            k = k + 1;
        }
        let r = Image::new(self.width, self.height, buff);
        proof {
            let w = self@.width as int;
            let h = self@.height as int;
            assert forall|xx: int, yy: int, cc: int|
                0 <= xx < w && 0 <= yy < h && 0 <= cc < 4 implies r@.chan(xx, yy, cc) == self@.chan(
                w - 1 - xx,
                h - 1 - yy,
                cc,
            ) by {
                lemma_flip_index(w, h, xx, yy);
                let kk = xx + yy * w;
                assert(buff@[byte_idx(kk, cc)] == self@.data[byte_idx(n - 1 - kk, cc)]);
                assert(r@.chan(xx, yy, cc) == buff@[kk * 4 + cc]);
                assert(self@.chan(w - 1 - xx, h - 1 - yy, cc) == self@.data[((w - 1 - xx) + (h - 1
                    - yy) * w) * 4 + cc]);
            }
        }
        r
    }
}

} // verus!
