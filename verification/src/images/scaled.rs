use vstd::prelude::*;
use vstd::arithmetic::div_mod::{lemma_div_denominator, lemma_multiply_divide_lt};

use super::{allocatable, height_of, image_contents, image_size, pixel_at, same_image, width_of, RgbaImage};

verus! {

/// `img` scaled up by whole factors: every source pixel becomes a block of
/// `scale_x` by `scale_y` pixels.
pub open spec fn scaled_from(src: RgbaImage, scale_x: u32, scale_y: u32, dst: RgbaImage) -> bool {
    &&& image_size(dst) == ((width_of(src) * scale_x) as u32, (height_of(src) * scale_y) as u32)
    &&& forall|x: u32, y: u32|
        x < width_of(dst) && y < height_of(dst) ==> #[trigger] pixel_at(dst, x, y) == pixel_at(
            src,
            x / scale_x,
            y / scale_y,
        )
}

proof fn lemma_source_in_bounds(x: u32, w: u32, s: u32)
    requires
        x < w * s,
    ensures
        s > 0,
        x / s < w,
{
    if s == 0 {
        assert(w * s == 0) by (nonlinear_arith) requires s == 0;
    }
    lemma_multiply_divide_lt(x as int, s as int, w as int);
}

/// Scales `img` up by the whole factors `scale_x` and `scale_y`; the scaled size must fit
/// in `u32` and in memory.
pub fn new_scaled(img: &RgbaImage, scale_x: u32, scale_y: u32) -> (dst: RgbaImage)
    requires
        width_of(*img) * scale_x <= u32::MAX,
        height_of(*img) * scale_y <= u32::MAX,
        allocatable((width_of(*img) * scale_x) as u32, (height_of(*img) * scale_y) as u32),
    ensures
        scaled_from(*img, scale_x, scale_y, dst),
{
    if scale_x == 1 && scale_y == 1 {
        let dst = img.duplicate();
        assert forall|x: u32, y: u32| x < width_of(dst) && y < height_of(dst) implies #[trigger] pixel_at(dst, x, y)
            == pixel_at(*img, x / scale_x, y / scale_y) by {
            assert(x / 1 == x && y / 1 == y);
        }
        return dst;
    }
    let w = img.width();
    let h = img.height();
    let nw = w * scale_x;
    let nh = h * scale_y;
    let mut dst = RgbaImage::new(nw, nh);
    let mut y: u32 = 0;
    while y < nh
        invariant
            w == width_of(*img),
            h == height_of(*img),
            nw == w * scale_x,
            nh == h * scale_y,
            image_size(dst) == (nw, nh),
            y <= nh,
            forall|px: u32, py: u32|
                px < nw && py < y ==> #[trigger] pixel_at(dst, px, py) == pixel_at(*img, px / scale_x, py / scale_y),
        decreases nh - y,
    {
        let mut x: u32 = 0;
        while x < nw
            invariant
                w == width_of(*img),
                h == height_of(*img),
                nw == w * scale_x,
                nh == h * scale_y,
                image_size(dst) == (nw, nh),
                y < nh,
                x <= nw,
                forall|px: u32, py: u32|
                    px < nw && (py < y || (py == y && px < x)) ==> #[trigger] pixel_at(dst, px, py) == pixel_at(
                        *img,
                        px / scale_x,
                        py / scale_y,
                    ),
            decreases nw - x,
        {
            proof {
                lemma_source_in_bounds(x, w, scale_x);
                lemma_source_in_bounds(y, h, scale_y);
            }
            let p = img.get_pixel(x / scale_x, y / scale_y);
            let ghost prev = dst;
            dst.put_pixel(x, y, p);
            assert forall|px: u32, py: u32| px < nw && (py < y || (py == y && px < x)) implies #[trigger] pixel_at(dst, px, py)
                == pixel_at(prev, px, py) by {
                assert(image_contents(dst)[(px, py)] == image_contents(prev)[(px, py)]);
            }
            x = x + 1;
        }
        y = y + 1;
    }
    dst
}

/// Stretches the first row of `img` into an image `scale_y` pixels high.
pub fn new_scaled_1d_height(img: &RgbaImage, scale_y: u32) -> (dst: RgbaImage)
    requires
        width_of(*img) > 0 && scale_y > 0 ==> height_of(*img) > 0,
        allocatable(width_of(*img), scale_y),
    ensures
        image_size(dst) == (width_of(*img), scale_y),
        forall|x: u32, y: u32|
            x < width_of(dst) && y < height_of(dst) ==> #[trigger] pixel_at(dst, x, y) == pixel_at(*img, x, 0),
{
    let w = img.width();
    let mut dst = RgbaImage::new(w, scale_y);
    let mut y: u32 = 0;
    while y < scale_y
        invariant
            w == width_of(*img),
            w > 0 && scale_y > 0 ==> height_of(*img) > 0,
            image_size(dst) == (w, scale_y),
            y <= scale_y,
            forall|px: u32, py: u32| px < w && py < y ==> #[trigger] pixel_at(dst, px, py) == pixel_at(*img, px, 0),
        decreases scale_y - y,
    {
        let mut x: u32 = 0;
        while x < w
            invariant
                w == width_of(*img),
                w > 0 && scale_y > 0 ==> height_of(*img) > 0,
                image_size(dst) == (w, scale_y),
                y < scale_y,
                x <= w,
                forall|px: u32, py: u32|
                    px < w && (py < y || (py == y && px < x)) ==> #[trigger] pixel_at(dst, px, py) == pixel_at(
                        *img,
                        px,
                        0,
                    ),
            decreases w - x,
        {
            let p = img.get_pixel(x, 0);
            let ghost prev = dst;
            dst.put_pixel(x, y, p);
            assert forall|px: u32, py: u32| px < w && (py < y || (py == y && px < x)) implies #[trigger] pixel_at(dst, px, py)
                == pixel_at(prev, px, py) by {
                assert(image_contents(dst)[(px, py)] == image_contents(prev)[(px, py)]);
            }
            x = x + 1;
        }
        y = y + 1;
    }
    dst
}

/// Scaling by one in both directions gives back the same image.
pub proof fn scaling_by_one_keeps_image(src: RgbaImage, dst: RgbaImage)
    requires
        scaled_from(src, 1, 1, dst),
    ensures
        same_image(dst, src),
{
    assert forall|x: u32, y: u32| x < width_of(dst) && y < height_of(dst) implies #[trigger] pixel_at(dst, x, y) == pixel_at(
        src,
        x,
        y,
    ) by {
        assert(x / 1 == x && y / 1 == y);
    }
}

/// Scaling by `(a, b)` and then by `(c, d)` is scaling once by `(a * c, b * d)`.
pub proof fn scaling_composes(src: RgbaImage, a: u32, b: u32, mid: RgbaImage, c: u32, d: u32, dst: RgbaImage)
    requires
        width_of(src) * a <= u32::MAX,
        height_of(src) * b <= u32::MAX,
        width_of(src) * a * c <= u32::MAX,
        height_of(src) * b * d <= u32::MAX,
        a * c <= u32::MAX,
        b * d <= u32::MAX,
        scaled_from(src, a, b, mid),
        scaled_from(mid, c, d, dst),
    ensures
        scaled_from(src, (a * c) as u32, (b * d) as u32, dst),
{
    let w = width_of(src) as int;
    let h = height_of(src) as int;
    assert(w * a * c == w * (a * c)) by (nonlinear_arith);
    assert(h * b * d == h * (b * d)) by (nonlinear_arith);
    assert forall|x: u32, y: u32| x < width_of(dst) && y < height_of(dst) implies #[trigger] pixel_at(dst, x, y)
        == pixel_at(src, x / ((a * c) as u32), y / ((b * d) as u32)) by {
        let mw = width_of(mid);
        let mh = height_of(mid);
        lemma_source_in_bounds(x, mw, c);
        lemma_source_in_bounds(y, mh, d);
        assert(pixel_at(dst, x, y) == pixel_at(mid, x / c, y / d));
        lemma_source_in_bounds(x / c, width_of(src), a);
        lemma_source_in_bounds(y / d, height_of(src), b);
        assert(pixel_at(mid, x / c, y / d) == pixel_at(src, (x / c) / a, (y / d) / b));
        lemma_div_denominator(x as int, c as int, a as int);
        lemma_div_denominator(y as int, d as int, b as int);
        assert(c * a == a * c) by (nonlinear_arith);
        assert(d * b == b * d) by (nonlinear_arith);
    }
}

} // verus!
