//! Crop and resample: turns an input image into a square working grid.
use vstd::prelude::*;

use crate::error::EngineError;

verus! {

/// Crop fractions are expressed in units of `1 / SCALE_ONE`.
pub const SCALE_ONE: u32 = 10000;

/// A crop of the image's centred square: offsets and side length as
/// fractions (in units of `1 / SCALE_ONE`) of that square's side.
#[derive(Clone, Copy, Debug, PartialEq, Eq)]
pub struct CropScale {
    pub offset_x: u32,
    pub offset_y: u32,
    pub scale: u32,
}

/// A square region of an image, in pixels.
#[derive(Clone, Copy, Debug, PartialEq, Eq)]
pub struct CropRect {
    pub x: u32,
    pub y: u32,
    pub side: u32,
}

impl CropScale {
    /// The whole centred square.
    pub open spec fn identity_spec() -> CropScale {
        CropScale { offset_x: 0, offset_y: 0, scale: SCALE_ONE }
    }

    /// The whole centred square.
    pub fn identity() -> (r: Self)
        ensures
            r == Self::identity_spec(),
    {
        CropScale { offset_x: 0, offset_y: 0, scale: SCALE_ONE }
    }
}

/// Side of the centred square of a `width` by `height` image.
pub open spec fn square_side(width: u32, height: u32) -> int {
    if width <= height { width as int } else { height as int }
}

/// The region `crop` selects, if it has positive extent and lies in the
/// centred square.
pub open spec fn crop_region(width: u32, height: u32, crop: CropScale) -> Option<CropRect> {
    let m = square_side(width, height);
    let side = m * crop.scale / (SCALE_ONE as int);
    let ox = m * crop.offset_x / (SCALE_ONE as int);
    let oy = m * crop.offset_y / (SCALE_ONE as int);
    if crop.scale <= SCALE_ONE && side > 0 && ox + side <= m && oy + side <= m {
        Some(
            CropRect {
                x: ((width - m) / 2 + ox) as u32,
                y: ((height - m) / 2 + oy) as u32,
                side: side as u32,
            },
        )
    } else {
        None
    }
}

/// Computes the region a crop selects; `InvalidCrop` when it is empty or
/// leaves the image.
pub fn crop_rect(width: u32, height: u32, crop: CropScale) -> (r: Result<CropRect, EngineError>)
    ensures
        crop_region(width, height, crop) matches Some(rect) ==> r == Ok::<CropRect, EngineError>(
            rect,
        ),
        crop_region(width, height, crop) is None ==> r == Err::<CropRect, EngineError>(
            EngineError::InvalidCrop,
        ),
{
    let m: u64 = if width <= height { width as u64 } else { height as u64 };
    assert(m * crop.scale <= 0xFFFF_FFFF * 0xFFFF_FFFF) by (nonlinear_arith)
        requires
            m <= 0xFFFF_FFFF,
            crop.scale <= 0xFFFF_FFFF,
    ;
    assert(m * crop.offset_x <= 0xFFFF_FFFF * 0xFFFF_FFFF) by (nonlinear_arith)
        requires
            m <= 0xFFFF_FFFF,
            crop.offset_x <= 0xFFFF_FFFF,
    ;
    assert(m * crop.offset_y <= 0xFFFF_FFFF * 0xFFFF_FFFF) by (nonlinear_arith)
        requires
            m <= 0xFFFF_FFFF,
            crop.offset_y <= 0xFFFF_FFFF,
    ;
    let side = m * (crop.scale as u64) / (SCALE_ONE as u64);
    let ox = m * (crop.offset_x as u64) / (SCALE_ONE as u64);
    let oy = m * (crop.offset_y as u64) / (SCALE_ONE as u64);
    if crop.scale <= SCALE_ONE && side > 0 && ox + side <= m && oy + side <= m {
        Ok(
            CropRect {
                x: ((width as u64 - m) / 2 + ox) as u32,
                y: ((height as u64 - m) / 2 + oy) as u32,
                side: side as u32,
            },
        )
    } else {
        Err(EngineError::InvalidCrop)
    }
}

/// `rect` lies inside a `width` by `height` image.
pub open spec fn rect_inside(width: u32, height: u32, rect: CropRect) -> bool {
    rect.x + rect.side <= width && rect.y + rect.side <= height
}

/// Index in the image of the `k`-th pixel (row-major) of the region.
pub open spec fn region_pixel(width: u32, rect: CropRect, k: int) -> int {
    (rect.y + k / (rect.side as int)) * width + rect.x + k % (rect.side as int)
}

/// The RGB bytes of the region, row-major.
pub open spec fn cropped(img: Seq<u8>, width: u32, rect: CropRect) -> Seq<u8> {
    Seq::new(
        (3 * rect.side * rect.side) as nat,
        |i: int| img[3 * region_pixel(width, rect, i / 3) + i % 3],
    )
}

proof fn lemma_region_pixel_bounds(width: u32, height: u32, rect: CropRect, k: int)
    requires
        rect_inside(width, height, rect),
        rect.side > 0,
        0 <= k < rect.side * rect.side,
    ensures
        0 <= region_pixel(width, rect, k) < width * height,
        k / (rect.side as int) < rect.side,
        (rect.y + k / (rect.side as int)) * width <= region_pixel(width, rect, k),
{
    let s = rect.side as int;
    let r = k / s;
    let c = k % s;
    assert(0 <= r < s) by (nonlinear_arith)
        requires
            0 <= k < s * s,
            s > 0,
            r == k / s,
    ;
    assert(0 <= c < s);
    let w = width as int;
    let h = height as int;
    let yr = rect.y + r;
    let xc = rect.x + c;
    assert(0 <= yr * w + xc < w * h && 0 <= yr * w) by (nonlinear_arith)
        requires
            0 <= yr < h,
            0 <= xc < w,
    ;
}

/// Copies the RGB bytes of a region out of an image.
pub fn crop_pixels(img: &Vec<u8>, width: u32, height: u32, rect: CropRect) -> (out: Vec<u8>)
    requires
        img@.len() == 3 * width * height,
        rect_inside(width, height, rect),
        rect.side > 0,
    ensures
        out@ == cropped(img@, width, rect),
{
    let len = img.len();
    let s = rect.side as usize;
    assert(s * s <= (width as int) * (height as int)) by (nonlinear_arith)
        requires
            s <= width,
            s <= height,
    ;
    assert((s as int) * (s as int) <= len) by (nonlinear_arith)
        requires
            s * s <= (width as int) * (height as int),
            len == 3 * width * height,
    ;
    assert(3 * ((width as int) * (height as int)) == len) by (nonlinear_arith)
        requires
            len == 3 * width * height,
    ;
    let count = s * s;
    let mut out: Vec<u8> = Vec::new();
    let mut k: usize = 0;
    while k < count
        invariant
            img@.len() == len,
            len == 3 * width * height,
            3 * ((width as int) * (height as int)) == len,
            rect_inside(width, height, rect),
            rect.side > 0,
            s == rect.side,
            count == s * s,
            k <= count,
            out@.len() == 3 * k,
            forall|i: int|
                0 <= i < 3 * k ==> #[trigger] out@[i] == img@[3 * region_pixel(width, rect, i / 3) + i
                    % 3],
        decreases count - k,
    {
        proof {
            lemma_region_pixel_bounds(width, height, rect, k as int);
        }
        let p = (rect.y as usize + k / s) * (width as usize) + rect.x as usize + k % s;
        let base = 3 * p;
        let ghost before = out@;
        out.push(img[base]);
        out.push(img[base + 1]);
        out.push(img[base + 2]);
        proof {
            assert forall|i: int| 0 <= i < 3 * (k + 1) implies #[trigger] out@[i] == img@[3
                * region_pixel(width, rect, i / 3) + i % 3] by {
                if i >= 3 * k {
                    assert(i / 3 == k as int);
                } else {
                    assert(out@[i] == before[i]);
                }
            }
        }
        k = k + 1;
    }
    assert(3 * count == 3 * rect.side * rect.side) by (nonlinear_arith)
        requires
            count == s * s,
            s == rect.side,
    ;
    assert(out@ =~= cropped(img@, width, rect));
    out
}

/// Relies on `image::ImageBuffer::from_raw` (which accepts a buffer of
/// exactly `3 * width * height` bytes) and `image::imageops::resize` with the
/// Lanczos3 filter: the result is a `side` by `side` RGB buffer, an exact
/// copy when the size is unchanged.
#[verifier::external_body]
fn resize_rgb(img: &Vec<u8>, width: u32, height: u32, side: u32) -> (r: Vec<u8>)
    requires
        img@.len() == 3 * width * height,
    ensures
        r@.len() == 3 * side * side,
        width == side && height == side ==> r@ == img@,
{
    let buf = image::ImageBuffer::<image::Rgb<u8>, Vec<u8>>::from_raw(width, height, img.clone())
        .unwrap();
    image::imageops::resize(&buf, side, side, image::imageops::FilterType::Lanczos3).into_raw()
}

/// Crops an RGB image and resamples the region to a `side` by `side` grid.
/// `InvalidSettings` for a zero side or a buffer that does not match the
/// dimensions; `InvalidCrop` for a crop that selects nothing.
pub fn normalize(img: &Vec<u8>, width: u32, height: u32, crop: CropScale, side: u32) -> (r: Result<
    Vec<u8>,
    EngineError,
>)
    ensures
        side == 0 || img@.len() != 3 * width * height ==> r == Err::<Vec<u8>, EngineError>(
            EngineError::InvalidSettings,
        ),
        side > 0 && img@.len() == 3 * width * height && crop_region(width, height, crop) is None
            ==> r == Err::<Vec<u8>, EngineError>(EngineError::InvalidCrop),
        side > 0 && img@.len() == 3 * width * height ==> (crop_region(width, height, crop) matches Some(rect) ==> r
            matches Ok(out) && (rect.side == side ==> out@ == cropped(img@, width, rect))),
        r matches Ok(out) ==> out@.len() == 3 * side * side,
{
    let len = img.len();
    assert((width as int) * (height as int) <= 0xFFFF_FFFF * 0xFFFF_FFFF) by (nonlinear_arith)
        requires
            width <= 0xFFFF_FFFF,
            height <= 0xFFFF_FFFF,
    ;
    let pixels = (width as u64) * (height as u64);
    assert(3 * width * height == 3 * (width * height)) by (nonlinear_arith);
    if side == 0 {
        return Err(EngineError::InvalidSettings);
    }
    if pixels > (usize::MAX / 3) as u64 {
        assert(3 * width * height > len) by (nonlinear_arith)
            requires
                width * height == pixels,
                pixels > usize::MAX / 3,
                len <= usize::MAX,
        ;
        return Err(EngineError::InvalidSettings);
    }
    if len != 3 * (pixels as usize) {
        return Err(EngineError::InvalidSettings);
    }
    let rect = match crop_rect(width, height, crop) {
        Ok(rect) => rect,
        Err(e) => {
            return Err(e);
        },
    };
    proof {
        let m = square_side(width, height);
        let sc = crop.scale as int;
        assert(m * sc / 10000 <= m) by (nonlinear_arith)
            requires
                0 <= sc <= 10000,
                m >= 0,
        ;
    }
    let region = crop_pixels(img, width, height, rect);
    assert(region@.len() == 3 * rect.side * rect.side);
    Ok(resize_rgb(&region, rect.side, rect.side, side))
}

} // verus!
