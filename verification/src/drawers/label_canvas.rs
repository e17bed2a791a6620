use vstd::prelude::*;

use super::renderer::{is_rotation, rotated_pixel};
use crate::elements::field_orientation::FieldOrientation;
use crate::images::{
    allocatable, blend_over, height_of, image_contents, image_size, pixel_at, same_image, width_of, Pixel, RgbaImage,
    COLOR_WHITE,
};

verus! {

/// The width of the image that a label's elements are drawn on: the label width,
/// narrowed to the label's print width when that is set (positive) and narrower.
pub open spec fn image_width_for(label_width: int, print_width: int) -> int {
    if print_width > 0 && print_width < label_width {
        print_width
    } else {
        label_width
    }
}

/// The width of the image that a label's elements are drawn on (see `image_width_for`).
pub fn image_width(label_width: i32, print_width: i32) -> (w: i32)
    ensures
        w == image_width_for(label_width as int, print_width as int),
{
    if print_width > 0 {
        if print_width < label_width {
            print_width
        } else {
            label_width
        }
    } else {
        label_width
    }
}

/// The colour that `RgbaImage::overlay` leaves where `over` is laid on `under`.
pub open spec fn overlaid(under: Pixel, over: Pixel) -> Pixel {
    if over.3 == 0 {
        under
    } else if over.3 == 255 {
        over
    } else {
        blend_over(under, over)
    }
}

/// How far the drawn image is moved right on the full label: half the width it lacks.
pub open spec fn centring_offset(label_width: int, drawn_width: int) -> int {
    (label_width - drawn_width) / 2
}

/// Pixel `(x, y)` of the finished label of width `label_width` for the drawn image
/// `canvas`: the canvas centred on a white label, turned half a turn when `invert`.
pub open spec fn finished_pixel(canvas: RgbaImage, label_width: int, invert: bool, x: int, y: int) -> Pixel {
    let w = width_of(canvas) as int;
    let h = height_of(canvas) as int;
    let off = centring_offset(label_width, w);
    if invert {
        let sx = label_width - 1 + off - x;
        if 0 <= sx < w {
            pixel_at(canvas, sx as u32, (h - 1 - y) as u32)
        } else {
            COLOR_WHITE
        }
    } else {
        let sx = x - off;
        if 0 <= sx < w {
            overlaid(COLOR_WHITE, pixel_at(canvas, sx as u32, y as u32))
        } else {
            COLOR_WHITE
        }
    }
}

/// `out` is the finished label for the drawn image `canvas`: the canvas itself when it
/// spans the label and is not inverted, otherwise a label `label_width` wide as high as
/// the canvas (see `finished_pixel`).
pub open spec fn finished(canvas: RgbaImage, label_width: int, invert: bool, out: RgbaImage) -> bool {
    if width_of(canvas) == label_width && !invert {
        out == canvas
    } else {
        &&& image_size(out) == (label_width as u32, height_of(canvas))
        &&& forall|x: u32, y: u32|
            x < label_width && y < height_of(canvas) ==> #[trigger] pixel_at(out, x, y) == finished_pixel(
                canvas,
                label_width,
                invert,
                x as int,
                y as int,
            )
    }
}

/// Puts the drawn image on the full label: when it is narrower than the label (a print
/// width was set) it is centred on a white label, and when the label is inverted it is
/// turned half a turn; otherwise it is the label as it is.
pub fn finish_canvas(canvas: RgbaImage, label_width: u32, invert: bool) -> (out: RgbaImage)
    requires
        width_of(canvas) <= label_width,
        label_width <= i32::MAX,
        allocatable(label_width, height_of(canvas)),
    ensures
        finished(canvas, label_width as int, invert, out),
{
    let (w, h) = canvas.dimensions();
    if w == label_width && !invert {
        return canvas;
    }
    let mut out = RgbaImage::from_pixel(label_width, h, COLOR_WHITE);
    let offset: u32 = (label_width - w) / 2;
    if invert {
        let mut y: u32 = 0;
        while y < h
            invariant
                (w, h) == image_size(canvas),
                w <= label_width <= i32::MAX,
                offset == centring_offset(label_width as int, w as int),
                image_size(out) == (label_width, h),
                y <= h,
                forall|px: u32, py: u32|
                    px < label_width && py < h ==> #[trigger] pixel_at(out, px, py) == if h - 1 - py < y {
                        finished_pixel(canvas, label_width as int, true, px as int, py as int)
                    } else {
                        COLOR_WHITE
                    },
            decreases h - y,
        {
            let mut x: u32 = 0;
            while x < w
                invariant
                    (w, h) == image_size(canvas),
                    w <= label_width <= i32::MAX,
                    offset == centring_offset(label_width as int, w as int),
                    image_size(out) == (label_width, h),
                    y < h,
                    x <= w,
                    forall|px: u32, py: u32|
                        px < label_width && py < h ==> #[trigger] pixel_at(out, px, py) == if h - 1 - py < y || (h - 1 - py
                            == y && label_width - 1 + offset - px < x) {
                            finished_pixel(canvas, label_width as int, true, px as int, py as int)
                        } else {
                            COLOR_WHITE
                        },
                decreases w - x,
            {
                let src = canvas.get_pixel(x, y);
                let dst_x = label_width - 1 - x + offset;
                let dst_y = h - 1 - y;
                let ghost prev = out;
                if dst_x < label_width {
                    out.put_pixel(dst_x, dst_y, src);
                    assert forall|qx: u32, qy: u32| qx < label_width && qy < h && (qx, qy) != (dst_x, dst_y) implies #[trigger] pixel_at(
                        out,
                        qx,
                        qy,
                    ) == pixel_at(prev, qx, qy) by {
                        assert(image_contents(out)[(qx, qy)] == image_contents(prev)[(qx, qy)]);
                    }
                }
                assert forall|px: u32, py: u32| px < label_width && py < h implies #[trigger] pixel_at(out, px, py) == if h
                    - 1 - py < y || (h - 1 - py == y && label_width - 1 + offset - px < x + 1) {
                    finished_pixel(canvas, label_width as int, true, px as int, py as int)
                } else {
                    COLOR_WHITE
                } by {
                    if px == dst_x && py == dst_y {
                    } else {
                        assert(pixel_at(out, px, py) == pixel_at(prev, px, py));
                    }
                }
                x = x + 1;
            }
            y = y + 1;
        }
    } else {
        out.overlay(&canvas, offset as i64, 0);
    }
    out
}

/// An inverted label that the drawn image spans is that image turned half a turn.
pub proof fn inverted_label_is_turned_half(canvas: RgbaImage, out: RgbaImage)
    requires
        finished(canvas, width_of(canvas) as int, true, out),
    ensures
        is_rotation(canvas, FieldOrientation::Rotated180, out),
{
    assert(centring_offset(width_of(canvas) as int, width_of(canvas) as int) == 0);
}

/// A label that the drawn image spans and that is not inverted is the drawn image.
pub proof fn full_upright_label_is_canvas(canvas: RgbaImage, out: RgbaImage)
    requires
        finished(canvas, width_of(canvas) as int, false, out),
    ensures
        out == canvas,
{
}

/// A finished upright label is as wide as the label and as high as the drawn image; the
/// columns left and right of the centred image are white, and inside them every opaque
/// pixel of the drawn image appears moved right by the centring offset.
pub proof fn upright_label_layout(canvas: RgbaImage, label_width: int, out: RgbaImage)
    requires
        width_of(canvas) <= label_width <= u32::MAX,
        finished(canvas, label_width, false, out),
    ensures
        image_size(out) == (label_width as u32, height_of(canvas)),
        forall|x: u32, y: u32|
            x < label_width && y < height_of(canvas) ==> {
                let off = centring_offset(label_width, width_of(canvas) as int);
                &&& (x < off || x >= off + width_of(canvas)) ==> #[trigger] pixel_at(out, x, y) == COLOR_WHITE
                &&& (off <= x < off + width_of(canvas) && pixel_at(canvas, (x - off) as u32, y).3 == 255) ==> pixel_at(
                    out,
                    x,
                    y,
                ) == pixel_at(canvas, (x - off) as u32, y)
            },
{
}

/// Finishing depends only on the drawn image's size and pixels.
pub proof fn finishing_is_deterministic(
    canvas1: RgbaImage,
    canvas2: RgbaImage,
    label_width: int,
    invert: bool,
    out1: RgbaImage,
    out2: RgbaImage,
)
    requires
        0 <= label_width <= u32::MAX,
        same_image(canvas1, canvas2),
        finished(canvas1, label_width, invert, out1),
        finished(canvas2, label_width, invert, out2),
    ensures
        same_image(out1, out2),
{
    let w = width_of(canvas1) as int;
    let h = height_of(canvas1) as int;
    let off = centring_offset(label_width, w);
    assert forall|x: u32, y: u32| x < width_of(out1) && y < height_of(out1) implies #[trigger] pixel_at(out1, x, y)
        == pixel_at(out2, x, y) by {
        if w == label_width && !invert {
            assert(pixel_at(canvas1, x, y) == pixel_at(canvas2, x, y));
        } else {
            if invert {
                let sx = label_width - 1 + off - x;
                if 0 <= sx < w {
                    assert(pixel_at(canvas1, sx as u32, (h - 1 - y) as u32) == pixel_at(canvas2, sx as u32, (h - 1 - y) as u32));
                }
            } else {
                let sx = x - off;
                if 0 <= sx < w {
                    assert(pixel_at(canvas1, sx as u32, y) == pixel_at(canvas2, sx as u32, y));
                }
            }
        }
    }
}

/// Inverting a label that the drawn image spans turns the upright label half a turn:
/// drawn images with the same pixels, finished upright and inverted.
pub proof fn inverted_label_turns_upright_label(
    canvas1: RgbaImage,
    canvas2: RgbaImage,
    upright: RgbaImage,
    inverted: RgbaImage,
)
    requires
        same_image(canvas1, canvas2),
        finished(canvas1, width_of(canvas1) as int, false, upright),
        finished(canvas2, width_of(canvas1) as int, true, inverted),
    ensures
        is_rotation(upright, FieldOrientation::Rotated180, inverted),
{
    let w = width_of(canvas1) as int;
    let h = height_of(canvas1) as int;
    assert(centring_offset(w, w) == 0);
    assert forall|ox: u32, oy: u32| ox < width_of(inverted) && oy < height_of(inverted) implies #[trigger] pixel_at(
        inverted,
        ox,
        oy,
    ) == rotated_pixel(upright, FieldOrientation::Rotated180, ox as int, oy as int) by {
        let sx = (w - 1 - ox) as u32;
        let sy = (h - 1 - oy) as u32;
        assert(pixel_at(canvas2, sx, sy) == pixel_at(canvas1, sx, sy));
    }
}

} // verus!
