use image::DynamicImage;
use vstd::prelude::*;

verus! {

#[verifier::external_type_specification]
#[verifier::external_body]
pub struct ExDynamicImage(DynamicImage);

/// The raw samples of an image, row by row, each pixel's channels together.
pub uninterp spec fn image_bytes(img: DynamicImage) -> Seq<u8>;

/// The width and height of an image.
pub uninterp spec fn image_size(img: DynamicImage) -> (u32, u32);

/// The image holds 8-bit RGB pixels.
pub uninterp spec fn image_is_rgb8(img: DynamicImage) -> bool;

/// Relies on image's `DynamicImage::new_rgb8`: an RGB image of the given size
/// whose buffer, three zero bytes per pixel, it allocates with `vec![0; 3 * w * h]`,
/// which panics beyond `isize::MAX` bytes.
#[verifier::external_body]
fn new_rgb8(w: u32, h: u32) -> (r: DynamicImage)
    requires
        3 * (w as int) * (h as int) <= isize::MAX,
    ensures
        image_is_rgb8(r),
        image_size(r) == (w, h),
        image_bytes(r) == Seq::new((3 * (w as int) * (h as int)) as nat, |k: int| 0u8),
{
    DynamicImage::new_rgb8(w, h)
}

/// Relies on image's `DynamicImage::as_mut_rgb8` and `ImageBuffer::put_pixel`:
/// on an RGB image the three bytes from `3 * (y * width + x)` on become `rgb`,
/// and nothing else changes; out-of-bounds coordinates panic.
#[verifier::external_body]
fn put_rgb(img: &mut DynamicImage, x: u32, y: u32, rgb: [u8; 3])
    requires
        image_is_rgb8(*old(img)),
        x < image_size(*old(img)).0,
        y < image_size(*old(img)).1,
    ensures
        image_is_rgb8(*final(img)),
        image_size(*final(img)) == image_size(*old(img)),
        image_bytes(*final(img)).len() == image_bytes(*old(img)).len(),
        forall|i: int|
            0 <= i < image_bytes(*old(img)).len() ==> #[trigger] image_bytes(*final(img))[i] == {
                let base = 3 * ((y as int) * (image_size(*old(img)).0 as int) + (x as int));
                if base <= i < base + 3 {
                    rgb@[i - base]
                } else {
                    image_bytes(*old(img))[i]
                }
            },
{
    if let Some(buf) = img.as_mut_rgb8() {
        buf.put_pixel(x, y, image::Rgb(rgb));
    }
}

/// Why a framebuffer could not be made.
#[derive(Debug, Copy, Clone, PartialEq, Eq, Structural)]
pub enum FrameError {
    /// The width or the height is zero.
    EmptyImage,
    /// The number of pixels given is not width times height.
    PixelCountMismatch,
    /// The image's bytes would not fit in memory.
    TooLarge,
}

/// The image's bytes are `pixels` laid out one after another, three channels each.
pub open spec fn holds_pixels(bytes: Seq<u8>, pixels: Seq<[u8; 3]>) -> bool {
    &&& bytes.len() == 3 * pixels.len()
    &&& forall|k: int, c: int|
        0 <= k < pixels.len() && 0 <= c < 3 ==> #[trigger] bytes[3 * k + c] == pixels[k]@[c]
}

/// Builds a `width` by `height` RGB image from its pixels in row-major order:
/// pixel `(i, j)`, column `i` from the left and row `j` from the top, is
/// `pixels[j * width + i]`.
pub fn framebuffer_from_pixels(width: u32, height: u32, pixels: &Vec<[u8; 3]>) -> (r: Result<
    DynamicImage,
    FrameError,
>)
    ensures
        r matches Ok(img) ==> {
            &&& image_size(img) == (width, height)
            &&& holds_pixels(image_bytes(img), pixels@)
        },
        r matches Err(e) ==> e == if width == 0 || height == 0 {
            FrameError::EmptyImage
        } else if pixels@.len() != (width as int) * (height as int) {
            FrameError::PixelCountMismatch
        } else {
            FrameError::TooLarge
        },
        r is Ok <==> (width > 0 && height > 0 && pixels@.len() == (width as int) * (height as int)
            && 3 * pixels@.len() <= isize::MAX),
{
    if width == 0 || height == 0 {
        return Err(FrameError::EmptyImage);
    }
    let n = pixels.len();
    assert((width as u64) * (height as u64) <= u64::MAX) by (nonlinear_arith)
        requires width <= u32::MAX, height <= u32::MAX;
    if n as u64 != width as u64 * height as u64 {
        return Err(FrameError::PixelCountMismatch);
    }
    if n > (isize::MAX as usize) / 3 {
        return Err(FrameError::TooLarge);
    }
    assert(3 * (width as int) * (height as int) == 3 * (n as int)) by (nonlinear_arith)
        requires n as int == (width as int) * (height as int);
    let mut img = new_rgb8(width, height);
    let w = width as usize;
    let mut k: usize = 0;
    while k < n
        invariant
            n == pixels@.len(),
            n == (width as int) * (height as int),
            3 * n <= isize::MAX,
            w == width,
            width > 0,
            k <= n,
            image_is_rgb8(img),
            image_size(img) == (width, height),
            image_bytes(img).len() == 3 * n,
            forall|q: int, c: int|
                0 <= q < k && 0 <= c < 3 ==> #[trigger] image_bytes(img)[3 * q + c] == pixels@[q]@[c],
        decreases n - k,
    {
        let x = k % w;
        let y = k / w;
        proof {
            vstd::arithmetic::div_mod::lemma_fundamental_div_mod(k as int, w as int);
            assert((y as int) < (height as int)) by (nonlinear_arith)
                requires
                    k as int == (w as int) * (y as int) + (x as int),
                    0 <= (x as int),
                    (k as int) < (w as int) * (height as int),
                    w > 0,
            ;
        }
        let ghost before = image_bytes(img);
        put_rgb(&mut img, x as u32, y as u32, pixels[k]);
        proof {
            assert((y as int) * (w as int) + (x as int) == k as int) by (nonlinear_arith)
                requires k as int == (w as int) * (y as int) + (x as int);
            assert forall|q: int, c: int|
                0 <= q < k + 1 && 0 <= c < 3 implies #[trigger] image_bytes(img)[3 * q + c] == pixels@[q]@[c] by {
                assert(image_bytes(img)[3 * q + c] == before[3 * q + c] || q == k);
                if q < k {
                    assert(before[3 * q + c] == pixels@[q]@[c]);
                }
            }
        }
        k += 1;
    }
    Ok(img)
}

} // verus!
