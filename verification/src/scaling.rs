//! Scaling a picture to a target width: the height that keeps its
//! proportions, and the resampling itself.

use vstd::prelude::*;
use crate::pixels::{PixelBuffer, PixelGrid};

verus! {

/// The widest and highest picture that is resampled.
pub const MAX_DIMENSION: u32 = 65535;

/// The most pixels that a resampled picture has, and that the picture has
/// which resampling builds on the way: the source's width by the new height.
pub const MAX_PIXELS: u32 = 67108864;

/// The widths of the variants that are made where nothing else is asked for.
pub open spec fn quality_presets_spec() -> Seq<u32> {
    seq![20u32, 200u32, 400u32, 600u32, 800u32, 1000u32, 1200u32]
}

/// The widths of the variants that are made where nothing else is asked
/// for, from the narrowest to the widest.
pub fn quality_presets() -> (widths: Vec<u32>)
    ensures
        widths@ == quality_presets_spec(),
{
    let widths = vec![20u32, 200u32, 400u32, 600u32, 800u32, 1000u32, 1200u32];
    assert(widths@ =~= quality_presets_spec());
    widths
}

/// The integer nearest to `numerator / denominator`, a half counted upwards.
pub open spec fn rounded_quotient(numerator: nat, denominator: nat) -> nat {
    (2 * numerator + denominator) / (2 * denominator)
}

/// The height that goes with `new_width` for a picture of the given size:
/// the integer nearest to `new_width * orig_height / orig_width`, and
/// `u32::MAX` where that is beyond the type. A picture without width has no
/// proportions: it gets the height 0 where the product is 0, else `u32::MAX`.
pub open spec fn new_height(orig_width: u32, orig_height: u32, new_width: u32) -> nat {
    let product = (new_width * orig_height) as nat;
    if orig_width == 0 {
        if product == 0 {
            0
        } else {
            u32::MAX as nat
        }
    } else if rounded_quotient(product, orig_width as nat) > u32::MAX {
        u32::MAX as nat
    } else {
        rounded_quotient(product, orig_width as nat)
    }
}

/// The samples that resampling a grid to a new size gives.
pub uninterp spec fn resampled(
    samples: Seq<u8>,
    width: u32,
    height: u32,
    new_width: u32,
    new_height: u32,
) -> Seq<u8>;

/// Whether a picture of the given size is resampled to the new size: no side
/// is beyond `MAX_DIMENSION`, and neither the new picture nor the one built
/// on the way has more than `MAX_PIXELS` pixels.
pub open spec fn can_resample(width: u32, height: u32, new_width: u32, new_height: u32) -> bool {
    &&& width <= MAX_DIMENSION
    &&& height <= MAX_DIMENSION
    &&& new_width <= MAX_DIMENSION
    &&& new_height <= MAX_DIMENSION
    &&& width * new_height <= MAX_PIXELS
    &&& new_width * new_height <= MAX_PIXELS
}

/// The picture of a grid scaled to a target width, its height following
/// from the grid's proportions.
pub open spec fn scaled_grid(grid: PixelGrid, width: u32) -> PixelGrid {
    let height = new_height(grid.width as u32, grid.height as u32, width) as u32;
    PixelGrid {
        width: width as nat,
        height: height as nat,
        samples: resampled(grid.samples, grid.width as u32, grid.height as u32, width, height),
    }
}

/// Whether a grid is scaled to a target width.
pub open spec fn can_scale(grid: PixelGrid, width: u32) -> bool {
    can_resample(
        grid.width as u32,
        grid.height as u32,
        width,
        new_height(grid.width as u32, grid.height as u32, width) as u32,
    )
}

/// The rounded height is within half a pixel of the exact proportion.
pub proof fn lemma_new_height_is_nearest(orig_width: u32, orig_height: u32, new_width: u32)
    requires
        orig_width > 0,
        new_height(orig_width, orig_height, new_width) < u32::MAX,
    ensures
        2 * (new_width * orig_height) - orig_width < 2 * (new_height(
            orig_width,
            orig_height,
            new_width,
        ) * orig_width) <= 2 * (new_width * orig_height) + orig_width,
{
    let product = (new_width * orig_height) as int;
    let d = 2 * orig_width as int;
    let n = 2 * product + orig_width;
    assert(product >= 0) by (nonlinear_arith)
        requires
            product == new_width * orig_height,
    ;
    let q = n / d;
    assert(q == new_height(orig_width, orig_height, new_width));
    vstd::arithmetic::div_mod::lemma_fundamental_div_mod(n, d);
    vstd::arithmetic::div_mod::lemma_mod_bound(n, d);
    assert(d * q == 2 * (q * orig_width)) by (nonlinear_arith)
        requires
            d == 2 * orig_width,
    ;
}

/// The height that keeps the proportions of a picture `orig_width` wide and
/// `orig_height` high when it is made `new_width` wide.
pub fn calculate_new_height(orig_width: u32, orig_height: u32, new_width: u32) -> (height: u32)
    ensures
        height == new_height(orig_width, orig_height, new_width),
        orig_width > 0 && 2 * (new_width * orig_height) + orig_width < 2 * (u32::MAX
            * orig_width) ==> 2 * (height * orig_width) <= 2 * (new_width * orig_height)
            + orig_width < 2 * ((height + 1) * orig_width),
        orig_width > 0 && 2 * (new_width * orig_height) + orig_width >= 2 * (u32::MAX
            * orig_width) ==> height == u32::MAX,
{
    assert(new_width * orig_height <= u32::MAX * u32::MAX) by (nonlinear_arith)
        requires
            new_width <= u32::MAX,
            orig_height <= u32::MAX,
    ;
    assert(0 <= new_width * orig_height) by (nonlinear_arith);
    let product: u128 = (new_width as u128) * (orig_height as u128);
    if orig_width == 0 {
        if product == 0 {
            0
        } else {
            u32::MAX
        }
    } else {
        let rounded: u128 = (2 * product + orig_width as u128) / (2 * orig_width as u128);
        proof {
            let n = 2 * (new_width * orig_height) + orig_width;
            let d = 2 * orig_width;
            vstd::arithmetic::div_mod::lemma_fundamental_div_mod(n, d);
            vstd::arithmetic::div_mod::lemma_mod_bound(n, d);
            assert(d * (n / d) == 2 * ((n / d) * orig_width)) by (nonlinear_arith)
                requires
                    d == 2 * orig_width,
            ;
            assert(2 * ((n / d + 1) * orig_width) == 2 * ((n / d) * orig_width) + d)
                by (nonlinear_arith)
                requires
                    d == 2 * orig_width,
            ;
            if n < 2 * (u32::MAX * orig_width) {
                assert(n / d < u32::MAX) by (nonlinear_arith)
                    requires
                        n < 2 * (u32::MAX * orig_width),
                        d == 2 * orig_width,
                        orig_width > 0,
                        d * (n / d) + n % d == n,
                        0 <= n % d < d,
                ;
            }
            if n >= 2 * (u32::MAX * orig_width) {
                assert(n / d >= u32::MAX) by (nonlinear_arith)
                    requires
                        n >= 2 * (u32::MAX * orig_width),
                        d == 2 * orig_width,
                        orig_width > 0,
                        d * (n / d) + n % d == n,
                        0 <= n % d < d,
                ;
            }
        }
        if rounded >= u32::MAX as u128 {
            u32::MAX
        } else {
            rounded as u32
        }
    }
}

/// Resamples a picture with `image::imageops::resize` and its `Triangle`
/// filter. The result has exactly the size asked for. `requires` keeps to
/// sizes for which the two buffers that `resize` allocates, one of `f32`
/// samples and one of bytes, stay below 2^31 bytes, and for which its
/// arithmetic on `f32` stays exact enough to give every pixel a weight. The
/// contract names the samples: they depend on the arguments alone.
#[verifier::external_body]
fn resample(buffer: &PixelBuffer, new_width: u32, new_height: u32) -> (scaled: PixelBuffer)
    requires
        buffer@.well_formed(),
        can_resample(buffer@.width as u32, buffer@.height as u32, new_width, new_height),
    ensures
        scaled@ == (PixelGrid {
            width: new_width as nat,
            height: new_height as nat,
            samples: resampled(
                buffer@.samples,
                buffer@.width as u32,
                buffer@.height as u32,
                new_width,
                new_height,
            ),
        }),
        scaled@.well_formed(),
{
    let source = image::ImageBuffer::<image::Rgba<u8>, &[u8]>::from_raw(
        buffer.width(),
        buffer.height(),
        buffer.samples().as_slice(),
    ).unwrap();
    let filter = image::imageops::FilterType::Triangle;
    let out = image::imageops::resize(&source, new_width, new_height, filter);
    PixelBuffer::assemble(out.width(), out.height(), out.into_raw())
}

/// Whether a picture of the given size is resampled to the new size.
pub fn resample_allowed(width: u32, height: u32, new_width: u32, new_height: u32) -> (allowed:
    bool)
    ensures
        allowed == can_resample(width, height, new_width, new_height),
{
    if width > MAX_DIMENSION || height > MAX_DIMENSION || new_width > MAX_DIMENSION || new_height
        > MAX_DIMENSION {
        return false;
    }
    assert(width * new_height <= 65535 * 65535 && new_width * new_height <= 65535 * 65535
        && 0 <= width * new_height && 0 <= new_width * new_height) by (nonlinear_arith)
        requires
            width <= 65535,
            new_width <= 65535,
            new_height <= 65535,
    ;
    let intermediate: u64 = width as u64 * new_height as u64;
    let result: u64 = new_width as u64 * new_height as u64;
    intermediate <= MAX_PIXELS as u64 && result <= MAX_PIXELS as u64
}

/// Scales a picture to a target width, keeping its proportions. `None`
/// where the picture or the target is too large to be resampled.
pub fn scale(buffer: &PixelBuffer, width: u32) -> (scaled: Option<PixelBuffer>)
    ensures
        scaled matches Some(s) ==> can_scale(buffer@, width) && s@ == scaled_grid(buffer@, width)
            && s@.well_formed(),
        scaled is None ==> !can_scale(buffer@, width),
{
    let _ = buffer.samples();
    let height = calculate_new_height(buffer.width(), buffer.height(), width);
    if resample_allowed(buffer.width(), buffer.height(), width, height) {
        Some(resample(buffer, width, height))
    } else {
        None
    }
}

} // verus!
