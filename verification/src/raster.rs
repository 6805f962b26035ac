//! Colour histograms of decoded images.

use vstd::prelude::*;
use image::DynamicImage;
use crate::rgb::{Histogram, Rgb};
use crate::tally::{
    colour_histogram, lemma_tallies_empty, lemma_tallies_push, lemma_tally_total, raw_tallies,
};

verus! {

/// A decoded image of the `image` crate, opaque to the verifier.
#[verifier::external_type_specification]
#[verifier::external_body]
pub struct ExDynamicImage(image::DynamicImage);

/// Width and height of an image, in this order.
pub uninterp spec fn image_dimensions(image: DynamicImage) -> (u32, u32);

/// Red, green and blue of the pixel in column `x` and row `y` of an image.
pub uninterp spec fn image_pixel(image: DynamicImage, x: u32, y: u32) -> (u8, u8, u8);

/// Width of an image.
pub open spec fn width(image: DynamicImage) -> nat {
    image_dimensions(image).0 as nat
}

/// Height of an image.
pub open spec fn height(image: DynamicImage) -> nat {
    image_dimensions(image).1 as nat
}

/// The pixels of column `x`, from the top row down.
pub open spec fn column(image: DynamicImage, x: u32) -> Seq<Rgb> {
    Seq::new(height(image), |y: int| image_pixel(image, x, y as u32))
}

/// The pixels of the first `count` columns, column after column.
pub open spec fn columns(image: DynamicImage, count: nat) -> Seq<Rgb>
    decreases count,
{
    if count == 0 {
        Seq::empty()
    } else {
        columns(image, (count - 1) as nat) + column(image, (count - 1) as u32)
    }
}

/// All pixels of an image, column after column.
pub open spec fn scan(image: DynamicImage) -> Seq<Rgb> {
    columns(image, width(image))
}

/// The first `count` columns hold `count * height` pixels.
pub proof fn lemma_columns_len(image: DynamicImage, count: nat)
    ensures
        columns(image, count).len() == count * height(image),
    decreases count,
{
    let rows = height(image);
    if count > 0 {
        lemma_columns_len(image, (count - 1) as nat);
        assert((count - 1) * rows + rows == count * rows) by (nonlinear_arith);
    } else {
        assert(count * rows == 0) by (nonlinear_arith)
            requires
                count == 0,
        ;
    }
}

/// Calls `GenericImageView::dimensions` on a `DynamicImage`, which reads
/// the width and height of the buffer it holds. The result is taken to be a
/// function of the image alone.
#[verifier::external_body]
fn dimensions(image: &DynamicImage) -> (size: (u32, u32))
    ensures
        size == image_dimensions(*image),
{
    image::GenericImageView::dimensions(image)
}

/// Calls `GenericImageView::get_pixel` on a `DynamicImage` and `Pixel::to_rgb`
/// on what it returns. `get_pixel` panics outside the image, so the
/// coordinates must lie inside; the colour read is taken to be a function of
/// the image and the coordinates alone.
#[verifier::external_body]
fn pixel_at(image: &DynamicImage, x: u32, y: u32) -> (rgb: (u8, u8, u8))
    requires
        x < image_dimensions(*image).0,
        y < image_dimensions(*image).1,
    ensures
        rgb == image_pixel(*image, x, y),
{
    let rgb: [u8; 3] = image::Pixel::to_rgb(&image::GenericImageView::get_pixel(image, x, y)).0;
    (rgb[0], rgb[1], rgb[2])
}

/// Computes the colour histogram of an image with `size` bins per channel.
///
/// Every pixel is counted once in each of the three channels, then every
/// channel is normalised. The weights of the result are the pixel counts; for
/// an image with at least one pixel their common scale is the number of
/// pixels, and an image without pixels yields empty bins.
pub fn histogram(image: &DynamicImage, size: usize) -> (hist: Histogram)
    requires
        size >= 1,
    ensures
        hist@ == colour_histogram(scan(*image), size as nat),
        forall|c: int|
            0 <= c < 3 ==> (#[trigger] hist@[c]).total() == width(*image) * height(*image),
{
    let (columns_count, rows_count) = dimensions(image);
    let ghost bins = size as nat;
    let mut hist: Histogram = Histogram::new(3, size);
    proof {
        lemma_tallies_empty(bins);
        assert(hist@ =~= raw_tallies(columns(*image, 0), bins));
    }
    let mut x: u32 = 0;
    while x < columns_count
        invariant
            x <= columns_count,
            size >= 1,
            bins == size,
            (columns_count, rows_count) == image_dimensions(*image),
            hist@ == raw_tallies(columns(*image, x as nat), bins),
        decreases columns_count - x,
    {
        let ghost done = columns(*image, x as nat);
        let ghost current = column(*image, x);
        let mut y: u32 = 0;
        proof {
            assert(done + current.take(0) =~= done);
        }
        while y < rows_count
            invariant
                x < columns_count,
                y <= rows_count,
                size >= 1,
                bins == size,
                (columns_count, rows_count) == image_dimensions(*image),
                done == columns(*image, x as nat),
                current == column(*image, x),
                hist@ == raw_tallies(done + current.take(y as int), bins),
            decreases rows_count - y,
        {
            let (red, green, blue) = pixel_at(image, x, y);
            proof {
                let seen = done + current.take(y as int);
                lemma_columns_len(*image, x as nat);
                assert(seen.len() == x * rows_count + y);
                assert(x * rows_count + y < 0xffff_ffff * 0xffff_ffff) by (nonlinear_arith)
                    requires
                        x < columns_count,
                        y < rows_count,
                        columns_count <= 0xffff_ffff,
                        rows_count <= 0xffff_ffff,
                ;
                lemma_tally_total(seen, 0, bins);
                lemma_tally_total(seen, 1, bins);
                lemma_tally_total(seen, 2, bins);
                lemma_tallies_push(seen, (red, green, blue), bins);
                assert(seen.push((red, green, blue)) =~= done + current.take(y + 1));
            }
            hist.record(red, green, blue);
            y += 1;
        }
        proof {
            assert(current.take(y as int) =~= current);
        }
        x += 1;
    }
    proof {
        lemma_columns_len(*image, width(*image));
        lemma_tally_total(scan(*image), 0, bins);
        lemma_tally_total(scan(*image), 1, bins);
        lemma_tally_total(scan(*image), 2, bins);
    }
    hist.normalize();
    hist
}

} // verus!
