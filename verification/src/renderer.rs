//! The framebuffer: a row-major array of four bytes per pixel, red, green,
//! blue and alpha.

use vstd::prelude::*;

verus! {

/// A colour as it is stored: each channel already gamma-encoded into a byte.
#[derive(PartialEq, Eq, Structural, Debug, Copy, Clone)]
pub struct Rgb8 {
    pub r: u8,
    pub g: u8,
    pub b: u8,
}

/// One rendered pixel of the image.
#[derive(PartialEq, Eq, Structural, Debug, Copy, Clone)]
pub struct Pixel {
    pub x: u64,
    pub y: u64,
    pub color: Rgb8,
}

/// The alpha byte of every pixel that was written.
pub const OPAQUE: u8 = 255;

/// The place of a pixel's first byte in the buffer of an image `width`
/// pixels wide.
pub open spec fn offset(width: int, x: int, y: int) -> int {
    4 * (y * width + x)
}

/// The buffer `data` after the pixel at `(x, y)` has been set to `color`.
pub open spec fn with_pixel(data: Seq<u8>, width: int, x: int, y: int, color: Rgb8) -> Seq<u8> {
    let at = offset(width, x, y);
    data.update(at, color.r).update(at + 1, color.g).update(at + 2, color.b).update(at + 3, OPAQUE)
}

/// The buffer `data` after the pixels of `batch` have been written, first to
/// last.
pub open spec fn with_pixels(data: Seq<u8>, width: int, batch: Seq<Pixel>) -> Seq<u8>
    decreases batch.len(),
{
    if batch.len() == 0 {
        data
    } else {
        let p = batch.last();
        with_pixel(with_pixels(data, width, batch.drop_last()), width, p.x as int, p.y as int, p.color)
    }
}

/// The pixel at `(x, y)` has its four bytes inside the buffer of a `width` by
/// `height` image.
pub open spec fn in_buffer(width: int, height: int, x: int, y: int) -> bool {
    0 <= y * width + x < width * height
}

/// Every pixel of the batch has its place in the buffer.
pub open spec fn all_in_buffer(width: int, height: int, batch: Seq<Pixel>) -> bool {
    forall|i: int|
        0 <= i < batch.len() ==> in_buffer(
            width,
            height,
            (#[trigger] batch[i]).x as int,
            batch[i].y as int,
        )
}

pub struct Renderer {
    width: u32,
    height: u32,
    buffer: Vec<u8>,
}

impl Renderer {
    /// The buffer holds four bytes for every pixel of the image.
    pub closed spec fn wf(&self) -> bool {
        &&& self.width * self.height * 4 <= u32::MAX
        &&& self.buffer@.len() == self.width * self.height * 4
    }

    /// Width of the image in pixels.
    pub closed spec fn spec_width(&self) -> u32 {
        self.width
    }

    /// Height of the image in pixels.
    pub closed spec fn spec_height(&self) -> u32 {
        self.height
    }

    /// The bytes of the image.
    pub closed spec fn spec_data(self) -> Seq<u8> {
        self.buffer@
    }

    /// The bytes of a well-formed image are four for each pixel, and a `u32`
    /// counts them.
    pub proof fn lemma_size(&self)
        requires
            self.wf(),
        ensures
            self.spec_width() * self.spec_height() * 4 <= u32::MAX,
            self.spec_data().len() == 4 * (self.spec_width() * self.spec_height()),
    {
        assert(self.width * self.height * 4 == 4 * (self.width * self.height))
            by (nonlinear_arith);
    }

    /// A black, fully transparent image of `width` by `height` pixels.
    pub fn new(width: u32, height: u32) -> (r: Renderer)
        requires
            width * height * 4 <= u32::MAX,
        ensures
            r.wf(),
            r.spec_width() == width,
            r.spec_height() == height,
            r.spec_data() == Seq::new((width * height * 4) as nat, |i: int| 0u8),
    {
        assert(width * height <= width * height * 4) by (nonlinear_arith);
        let len = (width * height * 4) as usize;
        let mut data: Vec<u8> = Vec::with_capacity(len);
        let mut i: usize = 0;
        while i < len
            invariant
                i <= len,
                data@.len() == i,
                forall|k: int| 0 <= k < i ==> data@[k] == 0u8,
            decreases len - i,
        {
            data.push(0);
            i += 1;
        }
        assert(data@ =~= Seq::new((width * height * 4) as nat, |i: int| 0u8));
        Renderer { width, height, buffer: data }
    }

    #[verifier::when_used_as_spec(spec_width)]
    pub fn width(&self) -> (w: u32)
        ensures
            w == self.spec_width(),
    {
        self.width
    }

    #[verifier::when_used_as_spec(spec_height)]
    pub fn height(&self) -> (h: u32)
        ensures
            h == self.spec_height(),
    {
        self.height
    }

    /// The bytes of the image: row after row, four bytes per pixel.
    pub fn data(&self) -> (d: &Vec<u8>)
        requires
            self.wf(),
        ensures
            d@ == self.spec_data(),
            d@.len() == 4 * (self.spec_width() * self.spec_height()),
    {
        proof {
            assert(self.width * self.height * 4 == 4 * (self.width * self.height))
                by (nonlinear_arith);
        }
        &self.buffer
    }

    /// Stores `color` at `(x, y)` and makes the pixel opaque. Nothing else
    /// changes.
    pub fn putpixel(&mut self, x: u32, y: u32, color: Rgb8)
        requires
            old(self).wf(),
            in_buffer(old(self).spec_width() as int, old(self).spec_height() as int, x as int, y as int),
        ensures
            final(self).wf(),
            final(self).spec_width() == old(self).spec_width(),
            final(self).spec_height() == old(self).spec_height(),
            final(self).spec_data() == with_pixel(
                old(self).spec_data(),
                old(self).spec_width() as int,
                x as int,
                y as int,
                color,
            ),
            final(self).spec_data()[offset(old(self).spec_width() as int, x as int, y as int)]
                == color.r,
            final(self).spec_data()[offset(old(self).spec_width() as int, x as int, y as int) + 1]
                == color.g,
            final(self).spec_data()[offset(old(self).spec_width() as int, x as int, y as int) + 2]
                == color.b,
            final(self).spec_data()[offset(old(self).spec_width() as int, x as int, y as int) + 3]
                == OPAQUE,
    {
        proof {
            assert(self.width * self.height * 4 == 4 * (self.width * self.height))
                by (nonlinear_arith);
            assert(0 <= y * self.width) by (nonlinear_arith);
        }
        let base = ((y * self.width + x) * 4) as usize;
        self.buffer.set(base, color.r);
        self.buffer.set(base + 1, color.g);
        self.buffer.set(base + 2, color.b);
        self.buffer.set(base + 3, OPAQUE);
    }
    /// Whether the pixel at `(x, y)` has its place in the buffer.
    pub fn holds(&self, x: u64, y: u64) -> (r: bool)
        requires
            self.wf(),
        ensures
            r == in_buffer(self.spec_width() as int, self.spec_height() as int, x as int, y as int),
    {
        let w = self.width as u64;
        let h = self.height as u64;
        proof {
            assert(w * h <= w * h * 4) by (nonlinear_arith);
            assert(h >= 1 ==> w <= w * h) by (nonlinear_arith);
            assert(w == 0 || h == 0 ==> w * h == 0) by (nonlinear_arith);
        }
        let cap: u64 = w * h;
        if y >= cap || x >= cap {
            proof {
                assert(w >= 1 ==> y * w >= y) by (nonlinear_arith);
                assert(y * w >= 0) by (nonlinear_arith);
            }
            false
        } else {
            proof {
                assert(y * w <= cap * cap) by (nonlinear_arith)
                    requires
                        0 <= y < cap,
                        0 <= w <= cap,
                ;
                assert(cap * cap <= 0x4000_0000 * 0x4000_0000) by (nonlinear_arith)
                    requires
                        0 <= cap <= 0x4000_0000,
                ;
            }
            y * w + x < cap
        }
    }

    /// Writes a batch of pixels, first to last.
    pub fn write_pixels(&mut self, batch: &Vec<Pixel>)
        requires
            old(self).wf(),
            all_in_buffer(old(self).spec_width() as int, old(self).spec_height() as int, batch@),
        ensures
            final(self).wf(),
            final(self).spec_width() == old(self).spec_width(),
            final(self).spec_height() == old(self).spec_height(),
            final(self).spec_data() == with_pixels(
                old(self).spec_data(),
                old(self).spec_width() as int,
                batch@,
            ),
    {
        let mut i: usize = 0;
        while i < batch.len()
            invariant
                i <= batch.len(),
                self.wf(),
                self.spec_width() == old(self).spec_width(),
                self.spec_height() == old(self).spec_height(),
                all_in_buffer(self.spec_width() as int, self.spec_height() as int, batch@),
                self.spec_data() == with_pixels(
                    old(self).spec_data(),
                    old(self).spec_width() as int,
                    batch@.take(i as int),
                ),
            decreases batch.len() - i,
        {
            let p = batch[i];
            proof {
                let w = self.width as int;
                let h = self.height as int;
                assert(in_buffer(w, h, p.x as int, p.y as int));
                assert(w * h <= w * h * 4) by (nonlinear_arith)
                    requires
                        0 <= w,
                        0 <= h,
                ;
                assert(p.y * w >= 0) by (nonlinear_arith)
                    requires
                        0 <= w,
                        0 <= p.y,
                ;
                assert(w >= 1 ==> p.y * w >= p.y) by (nonlinear_arith)
                    requires
                        0 <= p.y,
                ;
                assert(w == 0 ==> w * h == 0) by (nonlinear_arith);
                assert(batch@.take(i as int + 1).drop_last() =~= batch@.take(i as int));
            }
            self.putpixel(p.x as u32, p.y as u32, p.color);
            i += 1;
        }
        assert(batch@.take(batch@.len() as int) =~= batch@);
    }
}

/// Writes to two different pixels can be made in either order: the buffer
/// ends up the same.
pub proof fn lemma_writes_commute(
    data: Seq<u8>,
    width: int,
    height: int,
    x1: int,
    y1: int,
    c1: Rgb8,
    x2: int,
    y2: int,
    c2: Rgb8,
)
    requires
        data.len() == 4 * (width * height),
        in_buffer(width, height, x1, y1),
        in_buffer(width, height, x2, y2),
        offset(width, x1, y1) != offset(width, x2, y2),
    ensures
        with_pixel(with_pixel(data, width, x1, y1, c1), width, x2, y2, c2) == with_pixel(
            with_pixel(data, width, x2, y2, c2),
            width,
            x1,
            y1,
            c1,
        ),
{
    assert(with_pixel(with_pixel(data, width, x1, y1, c1), width, x2, y2, c2) =~= with_pixel(
        with_pixel(data, width, x2, y2, c2),
        width,
        x1,
        y1,
        c1,
    ));
}

} // verus!
