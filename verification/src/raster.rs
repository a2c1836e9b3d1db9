//! 8-bit RGB pixel grids.
//!
//! The pixels live in an `image::RgbImage`. Verus cannot look inside one, so
//! this module names what such a grid holds (its width, its height and its
//! pixels by coordinate) and states, for each method of the `image` crate
//! that the library calls, what the method does to those three. Everything
//! else in the library is proved from these statements.

use rayon::iter::{IntoParallelRefMutIterator, ParallelIterator};
use vstd::prelude::*;

verus! {

/// One pixel: `(red, green, blue)`.
pub type Pixel = (u8, u8, u8);

/// A grid of 8-bit RGB pixels, stored as an `image::RgbImage`.
#[verifier::external_body]
#[derive(Debug)]
pub struct Image {
    buffer: image::RgbImage,
}

/// The number of columns of the grid.
pub uninterp spec fn image_width(img: Image) -> nat;

/// The number of rows of the grid.
pub uninterp spec fn image_height(img: Image) -> nat;

/// The pixels of the grid, keyed by `(column, row)`.
pub uninterp spec fn image_pixels(img: Image) -> Map<(int, int), Pixel>;

/// The pixels that resampling a `width` by `height` grid with the triangle
/// filter gives, for a target side of `side`.
pub uninterp spec fn resampled(
    width: nat,
    height: nat,
    pixels: Map<(int, int), Pixel>,
    side: u32,
) -> Map<(int, int), Pixel>;

/// Whether `coords` holds the coordinates of a `width` by `height` grid and
/// no others.
pub open spec fn grid_domain(coords: Set<(int, int)>, width: nat, height: nat) -> bool {
    forall|x: int, y: int| #[trigger]
        coords.contains((x, y)) <==> 0 <= x < width && 0 <= y < height
}

/// The mathematical value of an [`Image`].
pub struct Raster {
    pub width: nat,
    pub height: nat,
    pub pixels: Map<(int, int), Pixel>,
}

impl Raster {
    /// Whether column `x`, row `y` lies inside the grid.
    pub open spec fn contains(self, x: int, y: int) -> bool {
        0 <= x < self.width && 0 <= y < self.height
    }

    /// The grid is as wide as it is high, and not empty.
    pub open spec fn is_square(self) -> bool {
        self.width == self.height && self.width >= 1
    }

    /// The pixel map is defined on the coordinates inside the grid and
    /// nowhere else.
    pub open spec fn wf(self) -> bool {
        grid_domain(self.pixels.dom(), self.width, self.height)
    }

    /// The grid of the given size whose pixels are all black.
    pub open spec fn blank(width: nat, height: nat) -> Raster {
        Raster {
            width,
            height,
            pixels: Map::new(
                |c: (int, int)| 0 <= c.0 < width && 0 <= c.1 < height,
                |c: (int, int)| (0u8, 0u8, 0u8),
            ),
        }
    }

    /// The grid with the pixel at column `x`, row `y` replaced.
    pub open spec fn with_pixel(self, x: int, y: int, p: Pixel) -> Raster {
        Raster { pixels: self.pixels.insert((x, y), p), ..self }
    }

    /// The side of the square that resampling to `side` produces: `side`
    /// itself, except that no image is scaled down to nothing.
    pub open spec fn resampled_side(side: u32) -> nat {
        if side == 0 {
            1
        } else {
            side as nat
        }
    }

    /// The square grid that resampling to `side` produces.
    pub open spec fn resized(self, side: u32) -> Raster {
        Raster {
            width: Self::resampled_side(side),
            height: Self::resampled_side(side),
            pixels: resampled(self.width, self.height, self.pixels, side),
        }
    }
}

/// Two grids of one size that agree at every coordinate are the same grid.
pub proof fn lemma_raster_ext(a: Raster, b: Raster)
    requires
        a.wf(),
        b.wf(),
        a.width == b.width,
        a.height == b.height,
        forall|x: int, y: int| a.contains(x, y) ==> #[trigger] a.pixels[(x, y)] == b.pixels[(x, y)],
    ensures
        a == b,
{
    assert forall|k: (int, int)| a.pixels.dom().contains(k) <==> b.pixels.dom().contains(k) by {
        assert(k == (k.0, k.1));
        assert(a.pixels.dom().contains((k.0, k.1)) <==> a.contains(k.0, k.1));
        assert(b.pixels.dom().contains((k.0, k.1)) <==> b.contains(k.0, k.1));
    }
    assert forall|k: (int, int)| a.pixels.dom().contains(k) implies a.pixels[k] == b.pixels[k] by {
        assert(k == (k.0, k.1));
        assert(a.pixels.dom().contains((k.0, k.1)) <==> a.contains(k.0, k.1));
        assert(a.pixels[(k.0, k.1)] == b.pixels[(k.0, k.1)]);
    }
    assert(a.pixels =~= b.pixels);
}

/// Whether a grid of this size can be allocated: three bytes a pixel, and
/// no allocation of more than `isize::MAX` bytes.
pub open spec fn can_hold(width: nat, height: nat) -> bool {
    3 * (width * height) <= isize::MAX
}

/// The longest side that is resampled.
///
/// The `image` crate finds the source pixels of a target pixel in 32-bit
/// floating point: the centre of target pixel `x` lies at
/// `(x + 0.5) * ratio`, and the source pixels within the filter's reach of
/// it are weighed and their weights summed up. With sides up to this
/// length a centre is off by less than a hundredth of a pixel, so the
/// nearest source pixel always has a weight above zero and the sum can be
/// divided by. Longer sides are left out because this was not followed
/// through for them; a tile of this side already takes 12 GiB.
pub const MAX_RESAMPLED_SIDE: u32 = 0x1_0000;

/// Whether a square grid of side `width` can be resampled to `side`:
/// neither side is longer than [`MAX_RESAMPLED_SIDE`], the result can be
/// allocated, and so can the intermediate grid of four 32-bit channels a
/// pixel, `width` columns by the new number of rows.
pub open spec fn can_resample(width: nat, side: u32) -> bool {
    &&& width <= MAX_RESAMPLED_SIDE
    &&& side <= MAX_RESAMPLED_SIDE
    &&& can_hold(Raster::resampled_side(side), Raster::resampled_side(side))
    &&& 16 * (width * Raster::resampled_side(side)) <= isize::MAX
}

impl View for Image {
    type V = Raster;

    open spec fn view(&self) -> Raster {
        Raster {
            width: image_width(*self),
            height: image_height(*self),
            pixels: image_pixels(*self),
        }
    }
}

/// `ImageBuffer::new`: a grid of the given size with every channel zero.
/// The outside function panics when the buffer cannot be allocated, which
/// `requires` excludes.
#[verifier::external_body]
fn blank(width: u32, height: u32) -> (img: Image)
    requires
        can_hold(width as nat, height as nat),
    ensures
        image_width(img) == width,
        image_height(img) == height,
        image_pixels(img) == Raster::blank(width as nat, height as nat).pixels,
{
    Image { buffer: image::RgbImage::new(width, height) }
}

/// `ImageBuffer::dimensions`: the width and height the grid was made with.
/// The pixels of a grid are those at the coordinates below these two, and
/// a grid that exists was allocated: its three bytes a pixel lie in one
/// `Vec`, which holds no more than `isize::MAX` bytes.
#[verifier::external_body]
fn dimensions(img: &Image) -> (d: (u32, u32))
    ensures
        d.0 == image_width(*img),
        d.1 == image_height(*img),
        grid_domain(image_pixels(*img).dom(), d.0 as nat, d.1 as nat),
        can_hold(d.0 as nat, d.1 as nat),
{
    img.buffer.dimensions()
}

/// `ImageBuffer::get_pixel`: the pixel at column `x`, row `y`. The outside
/// function panics outside the grid, which `requires` excludes.
#[verifier::external_body]
pub(crate) fn get_pixel(img: &Image, x: u32, y: u32) -> (p: Pixel)
    requires
        img@.contains(x as int, y as int),
    ensures
        p == image_pixels(*img)[(x as int, y as int)],
{
    let px = img.buffer.get_pixel(x, y);
    (px.0[0], px.0[1], px.0[2])
}

/// `ImageBuffer::put_pixel`: replaces the pixel at column `x`, row `y` and
/// leaves the size and every other pixel as they were. The outside function
/// panics outside the grid, which `requires` excludes.
#[verifier::external_body]
pub(crate) fn put_pixel(img: &mut Image, x: u32, y: u32, p: Pixel)
    requires
        old(img)@.contains(x as int, y as int),
    ensures
        image_width(*final(img)) == image_width(*old(img)),
        image_height(*final(img)) == image_height(*old(img)),
        image_pixels(*final(img)) == image_pixels(*old(img)).insert((x as int, y as int), p),
{
    img.buffer.put_pixel(x, y, image::Rgb([p.0, p.1, p.2]));
}

/// `DynamicImage::resize` with `FilterType::Triangle` and the bounds
/// `side` by `side`, on a square grid. The outside function keeps the
/// aspect ratio and scales to the largest size within the bounds, but never
/// to less than one pixel: the result is a square of side `side`, or of
/// side 1 where `side` is 0. Its pixels depend on the source pixels and on
/// `side` alone, and a grid resampled to its own side comes back as a
/// copy. `requires` excludes the sizes at which the outside function's
/// buffers cannot be allocated, and the sides beyond
/// [`MAX_RESAMPLED_SIDE`].
#[verifier::external_body]
fn resample(img: &Image, side: u32) -> (out: Image)
    requires
        img@.is_square(),
        can_resample(img@.width, side),
    ensures
        image_width(out) == Raster::resampled_side(side),
        image_height(out) == Raster::resampled_side(side),
        image_pixels(out) == resampled(
            image_width(*img),
            image_height(*img),
            image_pixels(*img),
            side,
        ),
        grid_domain(
            image_pixels(out).dom(),
            Raster::resampled_side(side),
            Raster::resampled_side(side),
        ),
        side == image_width(*img) ==> image_pixels(out) == image_pixels(*img),
{
    let source = image::DynamicImage::ImageRgb8(img.buffer.clone());
    let scaled = source.resize(side, side, image::imageops::FilterType::Triangle);
    Image { buffer: scaled.into_rgb8() }
}

/// `ParallelIterator::for_each` of the `rayon` crate over
/// `par_iter_mut`: replaces every tile by [`Image::resize`] of it, each
/// tile once and at its own place, whichever thread does the work.
#[verifier::external_body]
pub(crate) fn resize_each(tiles: &mut Vec<Image>, side: u32)
    requires
        forall|i: int|
            0 <= i < old(tiles)@.len() ==> (#[trigger] old(tiles)@[i])@.is_square()
                && can_resample(old(tiles)@[i]@.width, side),
    ensures
        final(tiles)@.len() == old(tiles)@.len(),
        forall|i: int|
            0 <= i < old(tiles)@.len() ==> (#[trigger] final(tiles)@[i])@ == old(tiles)@[i]@.resized(
                side,
            ) && final(tiles)@[i]@.wf(),
{
    tiles.par_iter_mut().for_each(|tile| *tile = tile.resize(side));
}

impl Image {
    /// The square tile resampled with the triangle filter to `side` by
    /// `side` pixels; to one pixel where `side` is 0.
    pub fn resize(&self, side: u32) -> (out: Image)
        requires
            self@.is_square(),
            can_resample(self@.width, side),
        ensures
            out@ == self@.resized(side),
            out@.wf(),
            side == self@.width ==> out@ == self@,
    {
        resample(self, side)
    }

    /// Whether a square grid of side `width` can be resampled to `side`.
    pub fn can_resample(width: u32, side: u32) -> (b: bool)
        ensures
            b == can_resample(width as nat, side),
    {
        if width > MAX_RESAMPLED_SIDE || side > MAX_RESAMPLED_SIDE {
            return false;
        }
        let target: u32 = if side == 0 {
            1
        } else {
            side
        };
        assert(width * target <= 0x1_0000 * 0x1_0000) by (nonlinear_arith)
            requires
                0 <= width <= 0x1_0000,
                0 <= target <= 0x1_0000,
        ;
        let cells: u128 = (width as u128) * (target as u128);
        Image::can_hold(target, target) && 16 * cells <= isize::MAX as u128
    }

    /// Whether a grid of this size can be allocated.
    pub fn can_hold(width: u32, height: u32) -> (b: bool)
        ensures
            b == can_hold(width as nat, height as nat),
    {
        assert(width * height <= 0xffff_ffff * 0xffff_ffff) by (nonlinear_arith)
            requires
                width <= 0xffff_ffff,
                height <= 0xffff_ffff,
        ;
        let area: u128 = (width as u128) * (height as u128);
        3 * area <= isize::MAX as u128
    }

    /// A black grid of the given size.
    pub fn new(width: u32, height: u32) -> (img: Image)
        requires
            can_hold(width as nat, height as nat),
        ensures
            img@ == Raster::blank(width as nat, height as nat),
            img@.wf(),
    {
        blank(width, height)
    }

    /// The number of columns.
    pub fn width(&self) -> (w: u32)
        ensures
            w == self@.width,
            self@.wf(),
            can_hold(self@.width, self@.height),
    {
        dimensions(self).0
    }

    /// The number of rows.
    pub fn height(&self) -> (h: u32)
        ensures
            h == self@.height,
            self@.wf(),
            can_hold(self@.width, self@.height),
    {
        dimensions(self).1
    }

    /// The pixel at column `x`, row `y`, or `None` outside the grid.
    pub fn pixel(&self, x: u32, y: u32) -> (p: Option<Pixel>)
        ensures
            self@.contains(x as int, y as int) ==> p == Some(self@.pixels[(x as int, y as int)]),
            !self@.contains(x as int, y as int) ==> p.is_none(),
    {
        let (w, h) = dimensions(self);
        if x < w && y < h {
            Some(get_pixel(self, x, y))
        } else {
            None
        }
    }

    /// Replaces the pixel at column `x`, row `y`. Outside the grid nothing
    /// changes and the result is `false`.
    pub fn set_pixel(&mut self, x: u32, y: u32, p: Pixel) -> (done: bool)
        ensures
            done == old(self)@.contains(x as int, y as int),
            done ==> final(self)@ == old(self)@.with_pixel(x as int, y as int, p),
            !done ==> final(self)@ == old(self)@,
    {
        let (w, h) = dimensions(self);
        if x < w && y < h {
            put_pixel(self, x, y, p);
            true
        } else {
            false
        }
    }
}

} // verus!
