use vstd::prelude::*;

use super::{
    filled_with, image_contents, height_of, pixel_at, same_image, width_of, image_size, Pixel, RgbaImage, COLOR_TRANSPARENT,
};

verus! {

/// A pixel of the mask at or above this alpha reverses the background under it.
pub const ALPHA_THRESHOLD: u8 = 30;

/// The colour with red, green and blue inverted and alpha kept.
pub open spec fn inverted(p: Pixel) -> Pixel {
    ((255 - p.0) as u8, (255 - p.1) as u8, (255 - p.2) as u8, p.3)
}

/// The mask covers `(x, y)` with enough opacity to reverse the background there.
pub open spec fn mask_covers(mask: RgbaImage, x: u32, y: u32) -> bool {
    x < width_of(mask) && y < height_of(mask) && pixel_at(mask, x, y).3 >= ALPHA_THRESHOLD
}

/// `after` is `before` with the colours inverted exactly where `mask` covers it.
pub open spec fn reverse_printed(mask: RgbaImage, before: RgbaImage, after: RgbaImage) -> bool {
    &&& image_size(after) == image_size(before)
    &&& forall|x: u32, y: u32|
        x < width_of(before) && y < height_of(before) ==> #[trigger] pixel_at(after, x, y) == if mask_covers(mask, x, y) {
            inverted(pixel_at(before, x, y))
        } else {
            pixel_at(before, x, y)
        }
}

/// Inverts the colours of `background` wherever `mask` has an alpha of at least
/// `ALPHA_THRESHOLD`; every pixel that the mask covers must lie on the background.
pub fn reverse_print(mask: &RgbaImage, background: &mut RgbaImage)
    requires
        forall|x: u32, y: u32|
            #[trigger] mask_covers(*mask, x, y) ==> x < width_of(*old(background)) && y < height_of(*old(background)),
    ensures
        reverse_printed(*mask, *old(background), *final(background)),
{
    let width = mask.width();
    let height = mask.height();
    let ghost before = *background;
    let mut y: u32 = 0;
    while y < height
        invariant
            width == width_of(*mask),
            height == height_of(*mask),
            forall|px: u32, py: u32|
                #[trigger] mask_covers(*mask, px, py) ==> px < width_of(before) && py < height_of(before),
            y <= height,
            image_size(*background) == image_size(before),
            forall|px: u32, py: u32|
                px < width_of(before) && py < height_of(before) ==> #[trigger] pixel_at(*background, px, py)
                    == if py < y && mask_covers(*mask, px, py) {
                    inverted(pixel_at(before, px, py))
                } else {
                    pixel_at(before, px, py)
                },
        decreases height - y,
    {
        let mut x: u32 = 0;
        while x < width
            invariant
                width == width_of(*mask),
                height == height_of(*mask),
                forall|px: u32, py: u32|
                    #[trigger] mask_covers(*mask, px, py) ==> px < width_of(before) && py < height_of(before),
                x <= width,
                y < height,
                image_size(*background) == image_size(before),
                forall|px: u32, py: u32|
                    px < width_of(before) && py < height_of(before) ==> #[trigger] pixel_at(*background, px, py)
                        == if (py < y || (py == y && px < x)) && mask_covers(*mask, px, py) {
                        inverted(pixel_at(before, px, py))
                    } else {
                        pixel_at(before, px, py)
                    },
            decreases width - x,
        {
            let m = mask.get_pixel(x, y);
            if m.3 >= ALPHA_THRESHOLD {
                assert(mask_covers(*mask, x, y));
                let bg = background.get_pixel(x, y);
                let ghost prev = *background;
                background.put_pixel(x, y, (255 - bg.0, 255 - bg.1, 255 - bg.2, bg.3));
                assert forall|px: u32, py: u32| px < width_of(before) && py < height_of(before) && (px, py) != (x, y)
                    implies #[trigger] pixel_at(*background, px, py) == pixel_at(prev, px, py) by {
                    assert(image_contents(*background)[(px, py)] == image_contents(prev)[(px, py)]);
                }
            }
            x = x + 1;
        }
        y = y + 1;
    }
}

/// Reverse printing twice with the same mask gives back the background it started from.
pub proof fn reverse_print_twice_restores(mask: RgbaImage, first: RgbaImage, second: RgbaImage, third: RgbaImage)
    requires
        reverse_printed(mask, first, second),
        reverse_printed(mask, second, third),
    ensures
        image_size(third) == image_size(first),
        forall|x: u32, y: u32|
            x < width_of(first) && y < height_of(first) ==> #[trigger] pixel_at(third, x, y) == pixel_at(first, x, y),
{
    assert forall|x: u32, y: u32| x < width_of(first) && y < height_of(first) implies #[trigger] pixel_at(third, x, y)
        == pixel_at(first, x, y) by {
        assert(pixel_at(second, x, y) == if mask_covers(mask, x, y) {
            inverted(pixel_at(first, x, y))
        } else {
            pixel_at(first, x, y)
        });
    }
}

/// A transparent mask reverses nothing: the background stays as it was.
pub proof fn clear_mask_reverses_nothing(mask: RgbaImage, before: RgbaImage, after: RgbaImage)
    requires
        filled_with(mask, COLOR_TRANSPARENT),
        reverse_printed(mask, before, after),
    ensures
        same_image(after, before),
{
    assert forall|x: u32, y: u32| x < width_of(after) && y < height_of(after) implies #[trigger] pixel_at(after, x, y)
        == pixel_at(before, x, y) by {
        if x < width_of(mask) && y < height_of(mask) {
            assert(pixel_at(mask, x, y) == COLOR_TRANSPARENT);
        }
    }
}

} // verus!
