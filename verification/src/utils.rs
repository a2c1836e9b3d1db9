//! Stacking equal-sized images into one atlas, side by side or one above
//! the other.

use crate::raster::{can_hold, get_pixel, lemma_raster_ext, put_pixel, Image, Raster};
use vstd::arithmetic::div_mod::lemma_fundamental_div_mod_converse;
use vstd::prelude::*;

verus! {

/// Why a sequence of images could not be stacked.
#[derive(Debug, Clone, Copy, PartialEq, Eq, Structural)]
pub enum StackError {
    /// There was no image at all.
    EmptyInput,
    /// Some image differs in width or height from the first.
    ShapeMismatch,
}

/// The direction in which images are put together.
#[derive(Debug, Clone, Copy, PartialEq, Eq, Structural)]
pub enum Axis {
    /// Side by side, the first image leftmost.
    Horizontal,
    /// One above the other, the first image on top.
    Vertical,
}

/// The mathematical values of a sequence of images.
pub open spec fn rasters(images: Seq<Image>) -> Seq<Raster> {
    images.map_values(|img: Image| img@)
}

/// Every grid has the width and the height of the first.
pub open spec fn uniform(grids: Seq<Raster>) -> bool {
    forall|i: int|
        0 <= i < grids.len() ==> (#[trigger] grids[i]).width == grids[0].width && grids[i].height
            == grids[0].height
}

/// The grids put side by side: grid `i` fills the columns from
/// `i * width` on, rows unchanged.
pub open spec fn beside(grids: Seq<Raster>) -> Raster {
    let width = grids[0].width;
    let height = grids[0].height;
    Raster {
        width: width * grids.len(),
        height,
        pixels: Map::new(
            |c: (int, int)| 0 <= c.0 < width * grids.len() && 0 <= c.1 < height,
            |c: (int, int)| grids[c.0 / width as int].pixels[(c.0 % width as int, c.1)],
        ),
    }
}

/// The grids put one above the other: grid `i` fills the rows from
/// `i * height` on, columns unchanged.
pub open spec fn above(grids: Seq<Raster>) -> Raster {
    let width = grids[0].width;
    let height = grids[0].height;
    Raster {
        width,
        height: height * grids.len(),
        pixels: Map::new(
            |c: (int, int)| 0 <= c.0 < width && 0 <= c.1 < height * grids.len(),
            |c: (int, int)| grids[c.1 / height as int].pixels[(c.0, c.1 % height as int)],
        ),
    }
}

/// The grids put together along `axis`.
pub open spec fn stacked(grids: Seq<Raster>, axis: Axis) -> Raster {
    match axis {
        Axis::Horizontal => beside(grids),
        Axis::Vertical => above(grids),
    }
}

/// Whether the atlas of these grids along `axis` can be made: its longer
/// side is a `u32`, and its pixels can be allocated.
pub open spec fn stackable(grids: Seq<Raster>, axis: Axis) -> bool {
    match axis {
        Axis::Horizontal => grids[0].width * grids.len() <= u32::MAX && can_hold(
            grids[0].width * grids.len(),
            grids[0].height,
        ),
        Axis::Vertical => grids[0].height * grids.len() <= u32::MAX && can_hold(
            grids[0].width,
            grids[0].height * grids.len(),
        ),
    }
}

/// Whether `atlas` is the row of the grids: as high as the first and as
/// wide as all of them together, and with grid `i` in the columns from
/// `i * width` on, pixel for pixel.
pub open spec fn is_row_of(atlas: Raster, grids: Seq<Raster>) -> bool {
    &&& atlas.width == grids[0].width * grids.len()
    &&& atlas.height == grids[0].height
    &&& forall|i: int, x: int, y: int|
        0 <= i < grids.len() && grids[i].contains(x, y) ==> atlas.pixels[(
            i * grids[0].width + x,
            y,
        )] == #[trigger] grids[i].pixels[(x, y)]
}

/// Whether `atlas` is the column of the grids: as wide as the first and
/// as high as all of them together, and with grid `i` in the rows from
/// `i * height` on, pixel for pixel.
pub open spec fn is_column_of(atlas: Raster, grids: Seq<Raster>) -> bool {
    &&& atlas.width == grids[0].width
    &&& atlas.height == grids[0].height * grids.len()
    &&& forall|i: int, x: int, y: int|
        0 <= i < grids.len() && grids[i].contains(x, y) ==> atlas.pixels[(
            x,
            i * grids[0].height + y,
        )] == #[trigger] grids[i].pixels[(x, y)]
}

/// The row of grids of one size holds every grid, block by block.
pub proof fn lemma_beside_is_row(grids: Seq<Raster>)
    requires
        uniform(grids),
    ensures
        is_row_of(beside(grids), grids),
{
    assert forall|i: int, x: int, y: int|
        0 <= i < grids.len() && grids[i].contains(x, y) implies beside(grids).pixels[(
        i * grids[0].width + x,
        y,
    )] == #[trigger] grids[i].pixels[(x, y)] by {
        lemma_beside_block(grids, i, x, y);
    }
}

/// The column of grids of one size holds every grid, block by block.
pub proof fn lemma_above_is_column(grids: Seq<Raster>)
    requires
        uniform(grids),
    ensures
        is_column_of(above(grids), grids),
{
    assert forall|i: int, x: int, y: int|
        0 <= i < grids.len() && grids[i].contains(x, y) implies above(grids).pixels[(
        x,
        i * grids[0].height + y,
    )] == #[trigger] grids[i].pixels[(x, y)] by {
        lemma_above_block(grids, i, x, y);
    }
}

/// What stacking returns: `EmptyInput` for no grid, `ShapeMismatch` for
/// grids of differing sizes, else the atlas.
pub open spec fn stack_outcome(grids: Seq<Raster>, axis: Axis) -> Result<Raster, StackError> {
    if grids.len() == 0 {
        Err(StackError::EmptyInput)
    } else if !uniform(grids) {
        Err(StackError::ShapeMismatch)
    } else {
        Ok(stacked(grids, axis))
    }
}

/// Whether `r` is the outcome `expected`, the image taken by its value.
pub open spec fn is_outcome(r: Result<Image, StackError>, expected: Result<Raster, StackError>) -> bool {
    match (r, expected) {
        (Ok(img), Ok(grid)) => img@ == grid && img@.wf(),
        (Err(e), Err(f)) => e == f,
        _ => false,
    }
}

/// In a row of `k` grids of size `width` by `height`, the columns from
/// `i * width` up to `(i + 1) * width` hold grid `i`, pixel for pixel.
pub proof fn lemma_beside_block(grids: Seq<Raster>, i: int, x: int, y: int)
    requires
        uniform(grids),
        0 <= i < grids.len(),
        grids[i].contains(x, y),
    ensures
        beside(grids).width == grids[0].width * grids.len(),
        beside(grids).height == grids[0].height,
        beside(grids).contains(i * grids[0].width + x, y),
        beside(grids).pixels[(i * grids[0].width + x, y)] == grids[i].pixels[(x, y)],
{
    let width = grids[0].width as int;
    let count = grids.len() as int;
    lemma_fundamental_div_mod_converse(i * width + x, width, i, x);
    assert(i * width + x < width * count) by (nonlinear_arith)
        requires
            0 <= i < count,
            0 <= x < width,
    ;
    assert(0 <= i * width) by (nonlinear_arith)
        requires
            0 <= i,
            0 <= width,
    ;
}

/// In a column of `k` grids of size `width` by `height`, the rows from
/// `i * height` up to `(i + 1) * height` hold grid `i`, pixel for pixel.
pub proof fn lemma_above_block(grids: Seq<Raster>, i: int, x: int, y: int)
    requires
        uniform(grids),
        0 <= i < grids.len(),
        grids[i].contains(x, y),
    ensures
        above(grids).width == grids[0].width,
        above(grids).height == grids[0].height * grids.len(),
        above(grids).contains(x, i * grids[0].height + y),
        above(grids).pixels[(x, i * grids[0].height + y)] == grids[i].pixels[(x, y)],
{
    let height = grids[0].height as int;
    let count = grids.len() as int;
    lemma_fundamental_div_mod_converse(i * height + y, height, i, y);
    assert(i * height + y < height * count) by (nonlinear_arith)
        requires
            0 <= i < count,
            0 <= y < height,
    ;
    assert(0 <= i * height) by (nonlinear_arith)
        requires
            0 <= i,
            0 <= height,
    ;
}

/// Two rows stacked on top of each other: the upper half of the atlas is
/// the first row and the lower half is the second, pixel for pixel.
pub proof fn lemma_two_rows(first: Raster, second: Raster, x: int, y: int)
    requires
        first.width == second.width,
        first.height == second.height,
        first.contains(x, y),
    ensures
        above(seq![first, second]).width == first.width,
        above(seq![first, second]).height == 2 * first.height,
        above(seq![first, second]).pixels[(x, y)] == first.pixels[(x, y)],
        above(seq![first, second]).pixels[(x, first.height + y)] == second.pixels[(x, y)],
{
    let grids = seq![first, second];
    assert(uniform(grids));
    lemma_above_block(grids, 0, x, y);
    lemma_above_block(grids, 1, x, y);
    assert(grids[0].height * grids.len() == 2 * first.height) by (nonlinear_arith)
        requires
            grids[0].height == first.height,
            grids.len() == 2,
    ;
}

/// Whether every image has the size of the first.
fn same_shape(images: &[Image]) -> (b: bool)
    requires
        images@.len() > 0,
    ensures
        b == uniform(rasters(images@)),
{
    let width = images[0].width();
    let height = images[0].height();
    let mut i: usize = 1;
    while i < images.len()
        invariant
            1 <= i <= images@.len(),
            width == images@[0]@.width,
            height == images@[0]@.height,
            forall|j: int|
                0 <= j < i ==> (#[trigger] images@[j])@.width == width && images@[j]@.height
                    == height,
        decreases images@.len() - i,
    {
        if images[i].width() != width || images[i].height() != height {
            assert(rasters(images@)[i as int] == images@[i as int]@);
            assert(rasters(images@)[0] == images@[0]@);
            return false;
        }
        i += 1;
    }
    assert forall|j: int| 0 <= j < rasters(images@).len() implies (#[trigger] rasters(
        images@,
    )[j]).width == rasters(images@)[0].width && rasters(images@)[j].height == rasters(
        images@,
    )[0].height by {
        assert(rasters(images@)[j] == images@[j]@);
    }
    true
}

/// Puts the images side by side, the first leftmost.
///
/// Fails with `EmptyInput` for no image and with `ShapeMismatch` when the
/// images differ in size. Otherwise image `i` fills the columns from
/// `i * width` on.
pub fn horizontal_stack(images: &[Image]) -> (r: Result<Image, StackError>)
    requires
        images@.len() > 1 && uniform(rasters(images@)) ==> stackable(
            rasters(images@),
            Axis::Horizontal,
        ),
    ensures
        is_outcome(r, stack_outcome(rasters(images@), Axis::Horizontal)),
        images@.len() == 0 ==> r == Err::<Image, StackError>(StackError::EmptyInput),
        images@.len() > 0 && !uniform(rasters(images@)) ==> r == Err::<Image, StackError>(
            StackError::ShapeMismatch,
        ),
        r.is_ok() <==> images@.len() > 0 && uniform(rasters(images@)),
        r matches Ok(atlas) ==> is_row_of(atlas@, rasters(images@)),
{
    if images.len() == 0 {
        return Err(StackError::EmptyInput);
    }
    if !same_shape(images) {
        return Err(StackError::ShapeMismatch);
    }
    let ghost grids = rasters(images@);
    let width = images[0].width();
    let height = images[0].height();
    assert(grids[0] == images@[0]@);
    assert(stackable(grids, Axis::Horizontal)) by {
        assert(grids.len() == 1 ==> grids[0].width * grids.len() == grids[0].width)
            by (nonlinear_arith);
    }
    let count: u32 = if width == 0 {
        0
    } else {
        assert(images@.len() <= u32::MAX) by (nonlinear_arith)
            requires
                width as int * images@.len() <= u32::MAX,
                width >= 1,
        ;
        images.len() as u32
    };
    assert(width * count == grids[0].width * grids.len()) by (nonlinear_arith)
        requires
            width == grids[0].width,
            width == 0 || count == grids.len(),
    ;
    let total: u32 = width * count;
    let mut atlas = Image::new(total, height);
    let mut base: u32 = 0;
    let mut i: usize = 0;
    while i < images.len()
        invariant
            grids == rasters(images@),
            uniform(grids),
            0 <= i <= images@.len(),
            width == grids[0].width,
            height == grids[0].height,
            total == width * grids.len(),
            base == width * i,
            atlas@.width == total,
            atlas@.height == height,
            atlas@.wf(),
            forall|x: int, y: int|
                0 <= x < base && 0 <= y < height ==> #[trigger] atlas@.pixels[(x, y)] == beside(
                    grids,
                ).pixels[(x, y)],
        decreases images@.len() - i,
    {
        let source = &images[i];
        assert(grids[i as int] == images@[i as int]@);
        assert(base + width <= total && base + width == width * (i + 1)) by (nonlinear_arith)
            requires
                base == width * i,
                total == width * grids.len(),
                i < grids.len(),
        ;
        let mut y: u32 = 0;
        while y < height
            invariant
                uniform(grids),
                0 <= i < grids.len(),
                grids[i as int] == source@,
                width == grids[0].width,
                height == grids[0].height,
                base == width * i,
                base + width <= total,
                0 <= y <= height,
                atlas@.width == total,
                atlas@.height == height,
                atlas@.wf(),
                forall|x: int, yy: int|
                    0 <= x < base && 0 <= yy < height ==> #[trigger] atlas@.pixels[(x, yy)]
                        == beside(grids).pixels[(x, yy)],
                forall|x: int, yy: int|
                    base <= x < base + width && 0 <= yy < y ==> #[trigger] atlas@.pixels[(x, yy)]
                        == beside(grids).pixels[(x, yy)],
            decreases height - y,
        {
            let mut x: u32 = 0;
            while x < width
                invariant
                    uniform(grids),
                    0 <= i < grids.len(),
                    grids[i as int] == source@,
                    width == grids[0].width,
                    height == grids[0].height,
                    base == width * i,
                    base + width <= total,
                    0 <= y < height,
                    0 <= x <= width,
                    atlas@.width == total,
                    atlas@.height == height,
                    atlas@.wf(),
                    forall|xx: int, yy: int|
                        0 <= xx < base && 0 <= yy < height ==> #[trigger] atlas@.pixels[(xx, yy)]
                            == beside(grids).pixels[(xx, yy)],
                    forall|xx: int, yy: int|
                        base <= xx < base + width && 0 <= yy < y ==> #[trigger] atlas@.pixels[(
                            xx,
                            yy,
                        )] == beside(grids).pixels[(xx, yy)],
                    forall|xx: int|
                        base <= xx < base + x ==> #[trigger] atlas@.pixels[(xx, y as int)]
                            == beside(grids).pixels[(xx, y as int)],
                decreases width - x,
            {
                let p = get_pixel(source, x, y);
                proof {
                    lemma_beside_block(grids, i as int, x as int, y as int);
                    vstd::arithmetic::mul::lemma_mul_is_commutative(i as int, width as int);
                }
                put_pixel(&mut atlas, base + x, y, p);
                x += 1;
            }
            y += 1;
        }
        base += width;
        i += 1;
    }
    proof {
        assert(beside(grids).wf());
        lemma_raster_ext(atlas@, beside(grids));
        lemma_beside_is_row(grids);
    }
    Ok(atlas)
}

/// Puts the images one above the other, the first on top.
///
/// Fails with `EmptyInput` for no image and with `ShapeMismatch` when the
/// images differ in size. Otherwise image `i` fills the rows from
/// `i * height` on.
pub fn vertical_stack(images: &[Image]) -> (r: Result<Image, StackError>)
    requires
        images@.len() > 1 && uniform(rasters(images@)) ==> stackable(
            rasters(images@),
            Axis::Vertical,
        ),
    ensures
        is_outcome(r, stack_outcome(rasters(images@), Axis::Vertical)),
        images@.len() == 0 ==> r == Err::<Image, StackError>(StackError::EmptyInput),
        images@.len() > 0 && !uniform(rasters(images@)) ==> r == Err::<Image, StackError>(
            StackError::ShapeMismatch,
        ),
        r.is_ok() <==> images@.len() > 0 && uniform(rasters(images@)),
        r matches Ok(atlas) ==> is_column_of(atlas@, rasters(images@)),
{
    if images.len() == 0 {
        return Err(StackError::EmptyInput);
    }
    if !same_shape(images) {
        return Err(StackError::ShapeMismatch);
    }
    let ghost grids = rasters(images@);
    let width = images[0].width();
    let height = images[0].height();
    assert(grids[0] == images@[0]@);
    assert(stackable(grids, Axis::Vertical)) by {
        assert(grids.len() == 1 ==> grids[0].height * grids.len() == grids[0].height)
            by (nonlinear_arith);
    }
    let count: u32 = if height == 0 {
        0
    } else {
        assert(images@.len() <= u32::MAX) by (nonlinear_arith)
            requires
                height as int * images@.len() <= u32::MAX,
                height >= 1,
        ;
        images.len() as u32
    };
    assert(height * count == grids[0].height * grids.len()) by (nonlinear_arith)
        requires
            height == grids[0].height,
            height == 0 || count == grids.len(),
    ;
    let total: u32 = height * count;
    let mut atlas = Image::new(width, total);
    let mut base: u32 = 0;
    let mut i: usize = 0;
    while i < images.len()
        invariant
            grids == rasters(images@),
            uniform(grids),
            0 <= i <= images@.len(),
            width == grids[0].width,
            height == grids[0].height,
            total == height * grids.len(),
            base == height * i,
            atlas@.width == width,
            atlas@.height == total,
            atlas@.wf(),
            forall|x: int, y: int|
                0 <= x < width && 0 <= y < base ==> #[trigger] atlas@.pixels[(x, y)] == above(
                    grids,
                ).pixels[(x, y)],
        decreases images@.len() - i,
    {
        let source = &images[i];
        assert(grids[i as int] == images@[i as int]@);
        assert(base + height <= total && base + height == height * (i + 1)) by (nonlinear_arith)
            requires
                base == height * i,
                total == height * grids.len(),
                i < grids.len(),
        ;
        let mut y: u32 = 0;
        while y < height
            invariant
                uniform(grids),
                0 <= i < grids.len(),
                grids[i as int] == source@,
                width == grids[0].width,
                height == grids[0].height,
                base == height * i,
                base + height <= total,
                0 <= y <= height,
                atlas@.width == width,
                atlas@.height == total,
                atlas@.wf(),
                forall|x: int, yy: int|
                    0 <= x < width && 0 <= yy < base + y ==> #[trigger] atlas@.pixels[(x, yy)]
                        == above(grids).pixels[(x, yy)],
            decreases height - y,
        {
            let mut x: u32 = 0;
            while x < width
                invariant
                    uniform(grids),
                    0 <= i < grids.len(),
                    grids[i as int] == source@,
                    width == grids[0].width,
                    height == grids[0].height,
                    base == height * i,
                    base + height <= total,
                    0 <= y < height,
                    0 <= x <= width,
                    atlas@.width == width,
                    atlas@.height == total,
                    atlas@.wf(),
                    forall|xx: int, yy: int|
                        0 <= xx < width && 0 <= yy < base + y ==> #[trigger] atlas@.pixels[(
                            xx,
                            yy,
                        )] == above(grids).pixels[(xx, yy)],
                    forall|xx: int|
                        0 <= xx < x ==> #[trigger] atlas@.pixels[(xx, base + y)] == above(
                            grids,
                        ).pixels[(xx, base + y)],
                decreases width - x,
            {
                let p = get_pixel(source, x, y);
                proof {
                    lemma_above_block(grids, i as int, x as int, y as int);
                    vstd::arithmetic::mul::lemma_mul_is_commutative(i as int, height as int);
                }
                put_pixel(&mut atlas, x, base + y, p);
                x += 1;
            }
            y += 1;
        }
        base += height;
        i += 1;
    }
    proof {
        assert(above(grids).wf());
        lemma_raster_ext(atlas@, above(grids));
        lemma_above_is_column(grids);
    }
    Ok(atlas)
}

/// Puts the images together along `axis`.
pub fn stack(images: &[Image], axis: Axis) -> (r: Result<Image, StackError>)
    requires
        images@.len() > 1 && uniform(rasters(images@)) ==> stackable(rasters(images@), axis),
    ensures
        is_outcome(r, stack_outcome(rasters(images@), axis)),
        r matches Ok(atlas) ==> match axis {
            Axis::Horizontal => is_row_of(atlas@, rasters(images@)),
            Axis::Vertical => is_column_of(atlas@, rasters(images@)),
        },
        images@.len() == 0 ==> r == Err::<Image, StackError>(StackError::EmptyInput),
        images@.len() > 0 && !uniform(rasters(images@)) ==> r == Err::<Image, StackError>(
            StackError::ShapeMismatch,
        ),
        r.is_ok() <==> images@.len() > 0 && uniform(rasters(images@)),
{
    match axis {
        Axis::Horizontal => horizontal_stack(images),
        Axis::Vertical => vertical_stack(images),
    }
}

/// Whether the atlas of the images along `axis` can be made, going by the
/// size of the first image; `true` where there is no image.
pub fn can_stack(images: &[Image], axis: Axis) -> (b: bool)
    ensures
        b == (images@.len() == 0 || stackable(rasters(images@), axis)),
        images@.len() == 1 ==> b,
{
    if images.len() == 0 {
        return true;
    }
    let width = images[0].width();
    let height = images[0].height();
    assert(rasters(images@)[0] == images@[0]@);
    let count = images.len();
    let (long, short) = match axis {
        Axis::Horizontal => (width, height),
        Axis::Vertical => (height, width),
    };
    assert(long * count <= 0xffff_ffff * 0xffff_ffff_ffff_ffff) by (nonlinear_arith)
        requires
            0 <= long <= 0xffff_ffff,
            0 <= count <= 0xffff_ffff_ffff_ffff,
    ;
    assert(count == 1 ==> long * count == long) by (nonlinear_arith);
    let total: u128 = (long as u128) * (count as u128);
    if total > u32::MAX as u128 {
        return false;
    }
    assert(width * (height * count) == (width * count) * height && height * (width * count) == (
    height * count) * width) by (nonlinear_arith);
    match axis {
        Axis::Horizontal => Image::can_hold(total as u32, short),
        Axis::Vertical => Image::can_hold(short, total as u32),
    }
}

} // verus!
