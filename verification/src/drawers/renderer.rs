use vstd::prelude::*;

use crate::elements::graphic_box::GraphicBox;
use vstd::string::StrSliceExecFns;
use crate::elements::graphic_circle::GraphicCircle;
use crate::elements::graphic_field::GraphicField;
use vstd::arithmetic::div_mod::{lemma_div_pos_is_pos, lemma_fundamental_div_mod, lemma_fundamental_div_mod_converse, lemma_multiply_divide_lt};
use vstd::arithmetic::mul::lemma_mul_is_commutative;
use crate::elements::field_orientation::FieldOrientation;
use crate::elements::label_position::LabelPosition;
use crate::elements::line_color::LineColor;
use crate::images::{
    midpoint_circle, height_of, image_contents, image_size, pixel_at, same_image, width_of, Pixel, RgbaImage,
    COLOR_BLACK, COLOR_WHITE,
};

verus! {

/// Draws labels.
pub struct Renderer;

impl Renderer {
    pub fn new() -> (r: Renderer) {
        Renderer
    }
}

/// The TrueType fonts that text is drawn with.
#[derive(Clone, Copy, Debug, PartialEq, Eq, Structural)]
pub enum TtfFont {
    HelveticaBoldCondensed,
    DejaVuSansMono,
    DejaVuSansMonoBold,
    ZplGs,
}

/// The TrueType font for a font name: "0" is Helvetica Bold Condensed, "B" DejaVu Sans Mono
/// Bold, "GS" the ZPL symbol font and every other name DejaVu Sans Mono.
pub open spec fn ttf_font(name: Seq<char>) -> TtfFont {
    if name == seq!['0'] {
        TtfFont::HelveticaBoldCondensed
    } else if name == seq!['B'] {
        TtfFont::DejaVuSansMonoBold
    } else if name == seq!['G', 'S'] {
        TtfFont::ZplGs
    } else {
        TtfFont::DejaVuSansMono
    }
}

/// The TrueType font that text in the font called `name` is drawn with.
pub fn ttf_font_for(name: &str) -> (font: TtfFont)
    ensures
        font == ttf_font(name@),
{
    let n = name.unicode_len();
    if n == 1 {
        let c = name.get_char(0);
        assert(name@ =~= seq![c]);
        if c == '0' {
            TtfFont::HelveticaBoldCondensed
        } else if c == 'B' {
            TtfFont::DejaVuSansMonoBold
        } else {
            TtfFont::DejaVuSansMono
        }
    } else if n == 2 {
        let c0 = name.get_char(0);
        let c1 = name.get_char(1);
        assert(name@ =~= seq![c0, c1]);
        if c0 == 'G' && c1 == 'S' {
            TtfFont::ZplGs
        } else {
            TtfFont::DejaVuSansMono
        }
    } else {
        TtfFont::DejaVuSansMono
    }
}

pub open spec fn line_color_pixel(color: LineColor) -> Pixel {
    match color {
        LineColor::Black => COLOR_BLACK,
        LineColor::White => COLOR_WHITE,
    }
}

/// The pixel colour of a line colour.
pub fn line_color_to_rgba(color: LineColor) -> (p: Pixel)
    ensures
        p == line_color_pixel(color),
{
    match color {
        LineColor::Black => COLOR_BLACK,
        LineColor::White => COLOR_WHITE,
    }
}

pub open spec fn fits_i32(v: int) -> bool {
    i32::MIN <= v <= i32::MAX
}

/// The canvas is small enough for its sides to be `i32` coordinates.
pub open spec fn canvas_addressable(canvas: RgbaImage) -> bool {
    width_of(canvas) <= i32::MAX && height_of(canvas) <= i32::MAX
}

/// `(px, py)` lies in the rectangle with corner `(x, y)`, width `w` and height `h`.
pub open spec fn in_rect(x: int, y: int, w: int, h: int, px: int, py: int) -> bool {
    x <= px < x + w && y <= py < y + h
}

/// `after` is `before` with the pixels `painted` set to `color`.
pub open spec fn painted_where(before: RgbaImage, after: RgbaImage, color: Pixel, painted: spec_fn(int, int) -> bool) -> bool {
    &&& image_size(after) == image_size(before)
    &&& forall|px: u32, py: u32|
        px < width_of(before) && py < height_of(before) ==> #[trigger] pixel_at(after, px, py) == if painted(
            px as int,
            py as int,
        ) {
            color
        } else {
            pixel_at(before, px, py)
        }
}

/// Fills the part of the rectangle with corner `(x, y)`, width `w` and height `h` that lies
/// on the canvas.
pub fn draw_filled_rect(canvas: &mut RgbaImage, x: i32, y: i32, w: i32, h: i32, color: Pixel)
    requires
        canvas_addressable(*old(canvas)),
        fits_i32(x + w),
        fits_i32(y + h),
    ensures
        painted_where(*old(canvas), *final(canvas), color, |px: int, py: int| in_rect(x as int, y as int, w as int, h as int, px, py)),
{
    let (cw, ch) = canvas.dimensions();
    let ghost before = *canvas;
    let x0 = if x < 0 {
        0
    } else {
        x
    };
    let x1 = if x + w < cw as i32 {
        x + w
    } else {
        cw as i32
    };
    let mut py = if y < 0 {
        0
    } else {
        y
    };
    let y1 = if y + h < ch as i32 {
        y + h
    } else {
        ch as i32
    };
    while py < y1
        invariant
            cw == width_of(before),
            ch == height_of(before),
            cw <= i32::MAX,
            ch <= i32::MAX,
            x0 == if x < 0 { 0 } else { x },
            x1 == if x + w < cw { x + w } else { cw as int },
            y1 == if y + h < ch { y + h } else { ch as int },
            py >= 0,
            py >= y,
            image_size(*canvas) == image_size(before),
            forall|qx: u32, qy: u32|
                qx < cw && qy < ch ==> #[trigger] pixel_at(*canvas, qx, qy) == if in_rect(
                    x as int,
                    y as int,
                    w as int,
                    h as int,
                    qx as int,
                    qy as int,
                ) && qy < py {
                    color
                } else {
                    pixel_at(before, qx, qy)
                },
        decreases y1 - py,
    {
        let mut px = x0;
        while px < x1
            invariant
                cw == width_of(before),
                ch == height_of(before),
                cw <= i32::MAX,
                ch <= i32::MAX,
                x0 == if x < 0 { 0 } else { x },
                x1 == if x + w < cw { x + w } else { cw as int },
                y1 == if y + h < ch { y + h } else { ch as int },
                py >= 0,
                py >= y,
                py < y1,
                px >= x0,
                image_size(*canvas) == image_size(before),
                forall|qx: u32, qy: u32|
                    qx < cw && qy < ch ==> #[trigger] pixel_at(*canvas, qx, qy) == if in_rect(
                        x as int,
                        y as int,
                        w as int,
                        h as int,
                        qx as int,
                        qy as int,
                    ) && (qy < py || (qy == py && qx < px)) {
                        color
                    } else {
                        pixel_at(before, qx, qy)
                    },
            decreases x1 - px,
        {
            let ghost prev = *canvas;
            canvas.put_pixel(px as u32, py as u32, color);
            assert forall|qx: u32, qy: u32| qx < cw && qy < ch && (qx, qy) != (px as u32, py as u32) implies #[trigger] pixel_at(
                *canvas,
                qx,
                qy,
            ) == pixel_at(prev, qx, qy) by {
                assert(image_contents(*canvas)[(qx, qy)] == image_contents(prev)[(qx, qy)]);
            }
            px = px + 1;
        }
        py = py + 1;
    }
}

/// `m / 2` rounded toward zero, as `i32` division does.
pub open spec fn half_toward_zero(m: int) -> int {
    if m >= 0 {
        m / 2
    } else {
        -((-m) / 2)
    }
}

/// The box's drawn width and height: at least its border thickness.
pub open spec fn box_width(gb: GraphicBox) -> int {
    if gb.width < gb.border_thickness {
        gb.border_thickness as int
    } else {
        gb.width as int
    }
}

pub open spec fn box_height(gb: GraphicBox) -> int {
    if gb.height < gb.border_thickness {
        gb.border_thickness as int
    } else {
        gb.height as int
    }
}

/// A rounded box is drawn filled and then cleared inside its border, when the border is
/// thinner than half the shorter side.
pub open spec fn rounded_box_hollow(gb: GraphicBox) -> bool {
    let w = box_width(gb);
    let h = box_height(gb);
    gb.border_thickness < half_toward_zero(if w < h { w } else { h })
}

/// The colour of pixel `(px, py)` after drawing the box over `under`.
pub open spec fn box_pixel(gb: GraphicBox, under: Pixel, px: int, py: int) -> Pixel {
    let x = gb.position.x as int;
    let y = gb.position.y as int;
    let w = box_width(gb);
    let h = box_height(gb);
    let b = gb.border_thickness as int;
    let color = line_color_pixel(gb.line_color);
    if gb.corner_rounding > 0 {
        if rounded_box_hollow(gb) && in_rect(x + b, y + b, w - 2 * b, h - 2 * b, px, py) {
            COLOR_WHITE
        } else if in_rect(x, y, w, h, px, py) {
            color
        } else {
            under
        }
    } else if b >= w || b >= h {
        if in_rect(x, y, w, h, px, py) {
            color
        } else {
            under
        }
    } else if in_rect(x, y, w, b, px, py) || in_rect(x, y + h - b, w, b, px, py) || in_rect(x, y, b, h, px, py)
        || in_rect(x + w - b, y, b, h, px, py) {
        color
    } else {
        under
    }
}

/// The box's coordinates stay within `i32` while it is drawn.
pub open spec fn box_fits(gb: GraphicBox) -> bool {
    let x = gb.position.x as int;
    let y = gb.position.y as int;
    let w = box_width(gb);
    let h = box_height(gb);
    let b = gb.border_thickness as int;
    &&& fits_i32(x + w)
    &&& fits_i32(y + h)
    &&& (gb.corner_rounding > 0 && rounded_box_hollow(gb)) ==> {
        &&& fits_i32(x + b)
        &&& fits_i32(y + b)
        &&& fits_i32(2 * b)
        &&& fits_i32(w - 2 * b)
        &&& fits_i32(h - 2 * b)
        &&& fits_i32(x + b + w - 2 * b)
        &&& fits_i32(y + b + h - 2 * b)
    }
    &&& (gb.corner_rounding <= 0 && b < w && b < h) ==> {
        &&& fits_i32(y + b)
        &&& fits_i32(y + h - b)
        &&& fits_i32(x + b)
        &&& fits_i32(x + w - b)
    }
}

/// `after` is `before` with the box drawn over it.
pub open spec fn box_drawn(before: RgbaImage, after: RgbaImage, gb: GraphicBox) -> bool {
    &&& image_size(after) == image_size(before)
    &&& forall|px: u32, py: u32|
        px < width_of(before) && py < height_of(before) ==> #[trigger] pixel_at(after, px, py) == box_pixel(
            gb,
            pixel_at(before, px, py),
            px as int,
            py as int,
        )
}

/// A box is a frame as thick as its border on all four sides: inside the box's rectangle
/// (at least as wide and as high as the border) every pixel within the border thickness
/// of any edge takes the line colour, rounded corners or not, and pixels outside the
/// rectangle keep their colour. Within the frame, a box with rounded corners is cleared
/// to white when its border is thinner than half its shorter side (rounded toward zero),
/// and filled otherwise,
/// and a box with square corners keeps what lay under it unless the border fills it. (A
/// negative border thickness would clear a rounded box beyond its rectangle.)
pub proof fn box_frame_is_even_on_all_sides(gb: GraphicBox, before: RgbaImage, after: RgbaImage)
    requires
        gb.border_thickness >= 0,
        box_drawn(before, after, gb),
    ensures
        forall|px: u32, py: u32|
            px < width_of(before) && py < height_of(before) ==> {
                let x = gb.position.x as int;
                let y = gb.position.y as int;
                let b = gb.border_thickness as int;
                let w = if gb.width < gb.border_thickness { b } else { gb.width as int };
                let h = if gb.height < gb.border_thickness { b } else { gb.height as int };
                let color = line_color_pixel(gb.line_color);
                let inside = x <= px < x + w && y <= py < y + h;
                let in_frame = px < x + b || px >= x + w - b || py < y + b || py >= y + h - b;
                let shorter = if w < h { w } else { h };
                let half = if shorter >= 0 { shorter / 2 } else { -((-shorter) / 2) };
                &&& (inside && in_frame) ==> #[trigger] pixel_at(after, px, py) == color
                &&& !inside ==> pixel_at(after, px, py) == pixel_at(before, px, py)
                &&& (inside && !in_frame) ==> pixel_at(after, px, py) == if gb.corner_rounding > 0 {
                    if b < half { COLOR_WHITE } else { color }
                } else if b >= w || b >= h {
                    color
                } else {
                    pixel_at(before, px, py)
                }
            },
{
    assert forall|px: u32, py: u32| px < width_of(before) && py < height_of(before) implies {
        let x = gb.position.x as int;
        let y = gb.position.y as int;
        let b = gb.border_thickness as int;
        let w = if gb.width < gb.border_thickness { b } else { gb.width as int };
        let h = if gb.height < gb.border_thickness { b } else { gb.height as int };
        let color = line_color_pixel(gb.line_color);
        let inside = x <= px < x + w && y <= py < y + h;
        let in_frame = px < x + b || px >= x + w - b || py < y + b || py >= y + h - b;
        let shorter = if w < h { w } else { h };
        let half = if shorter >= 0 { shorter / 2 } else { -((-shorter) / 2) };
        &&& (inside && in_frame) ==> #[trigger] pixel_at(after, px, py) == color
        &&& !inside ==> pixel_at(after, px, py) == pixel_at(before, px, py)
        &&& (inside && !in_frame) ==> pixel_at(after, px, py) == if gb.corner_rounding > 0 {
            if b < half { COLOR_WHITE } else { color }
        } else if b >= w || b >= h {
            color
        } else {
            pixel_at(before, px, py)
        }
    } by {
        assert(pixel_at(after, px, py) == box_pixel(gb, pixel_at(before, px, py), px as int, py as int));
    }
}

/// Drawing a box a second time changes nothing: every pixel it covers already has the
/// colour the box gives it.
pub proof fn drawing_box_twice_is_drawing_it_once(gb: GraphicBox, first: RgbaImage, once: RgbaImage, twice: RgbaImage)
    requires
        box_drawn(first, once, gb),
        box_drawn(once, twice, gb),
    ensures
        same_image(twice, once),
{
    assert forall|x: u32, y: u32| x < width_of(twice) && y < height_of(twice) implies #[trigger] pixel_at(twice, x, y)
        == pixel_at(once, x, y) by {
        assert(pixel_at(once, x, y) == box_pixel(gb, pixel_at(first, x, y), x as int, y as int));
    }
}

/// Whether the box's coordinates stay within `i32` while it is drawn (see `box_fits`).
pub fn box_fits_exec(gb: &GraphicBox) -> (ok: bool)
    ensures
        ok == box_fits(*gb),
{
    let x = gb.position.x as i64;
    let y = gb.position.y as i64;
    let w: i64 = if gb.width < gb.border_thickness {
        gb.border_thickness as i64
    } else {
        gb.width as i64
    };
    let h: i64 = if gb.height < gb.border_thickness {
        gb.border_thickness as i64
    } else {
        gb.height as i64
    };
    let b = gb.border_thickness as i64;
    let lo = i32::MIN as i64;
    let hi = i32::MAX as i64;
    let in_range = |v: i64| -> (r: bool)
        ensures
            r == fits_i32(v as int),
        { lo <= v && v <= hi };
    if !in_range(x + w) || !in_range(y + h) {
        return false;
    }
    let shorter = if w < h {
        w
    } else {
        h
    };
    let half = if shorter >= 0 {
        shorter / 2
    } else {
        -((-shorter) / 2)
    };
    if gb.corner_rounding > 0 && b < half {
        in_range(x + b) && in_range(y + b) && in_range(2 * b) && in_range(w - 2 * b) && in_range(h - 2 * b)
            && in_range(x + b + w - 2 * b) && in_range(y + b + h - 2 * b)
    } else if gb.corner_rounding <= 0 && b < w && b < h {
        in_range(y + b) && in_range(y + h - b) && in_range(x + b) && in_range(x + w - b)
    } else {
        true
    }
}

/// Draws a box: with rounded corners it is filled and then cleared to white inside the
/// border; otherwise a border at least as thick as the box is a filled box, and a thinner
/// one four filled strips.
pub fn draw_graphic_box(canvas: &mut RgbaImage, gb: &GraphicBox)
    requires
        canvas_addressable(*old(canvas)),
        box_fits(*gb),
    ensures
        box_drawn(*old(canvas), *final(canvas), *gb),
{
    let ghost before = *canvas;
    let color = line_color_to_rgba(gb.line_color);
    let x = gb.position.x;
    let y = gb.position.y;
    let w = if gb.width < gb.border_thickness {
        gb.border_thickness
    } else {
        gb.width
    };
    let h = if gb.height < gb.border_thickness {
        gb.border_thickness
    } else {
        gb.height
    };
    let border = gb.border_thickness;
    if gb.corner_rounding > 0 {
        draw_filled_rect(canvas, x, y, w, h, color);
        let m = if w < h {
            w
        } else {
            h
        };
        if border < m / 2 {
            let ghost mid = *canvas;
            draw_filled_rect(canvas, x + border, y + border, w - 2 * border, h - 2 * border, COLOR_WHITE);
            assert forall|px: u32, py: u32| px < width_of(before) && py < height_of(before) implies #[trigger] pixel_at(
                *canvas,
                px,
                py,
            ) == box_pixel(*gb, pixel_at(before, px, py), px as int, py as int) by {
                assert(pixel_at(mid, px, py) == if in_rect(x as int, y as int, w as int, h as int, px as int, py as int) {
                    color
                } else {
                    pixel_at(before, px, py)
                });
            }
        }
    } else {
        if border >= w || border >= h {
            draw_filled_rect(canvas, x, y, w, h, color);
        } else {
            let ghost c0 = *canvas;
            draw_filled_rect(canvas, x, y, w, border, color);
            let ghost c1 = *canvas;
            draw_filled_rect(canvas, x, y + h - border, w, border, color);
            let ghost c2 = *canvas;
            draw_filled_rect(canvas, x, y, border, h, color);
            let ghost c3 = *canvas;
            draw_filled_rect(canvas, x + w - border, y, border, h, color);
            assert forall|px: u32, py: u32| px < width_of(before) && py < height_of(before) implies #[trigger] pixel_at(
                *canvas,
                px,
                py,
            ) == box_pixel(*gb, pixel_at(before, px, py), px as int, py as int) by {
                assert(pixel_at(c1, px, py) == if in_rect(x as int, y as int, w as int, border as int, px as int, py as int) {
                    color
                } else {
                    pixel_at(c0, px, py)
                });
                assert(pixel_at(c2, px, py) == if in_rect(x as int, y + h - border, w as int, border as int, px as int, py as int) {
                    color
                } else {
                    pixel_at(c1, px, py)
                });
                assert(pixel_at(c3, px, py) == if in_rect(x as int, y as int, border as int, h as int, px as int, py as int) {
                    color
                } else {
                    pixel_at(c2, px, py)
                });
            }
        }
    }
}

/// The size of `img` turned by `ori`.
pub open spec fn rotated_size(img: RgbaImage, ori: FieldOrientation) -> (int, int) {
    match ori {
        FieldOrientation::Normal | FieldOrientation::Rotated180 => (width_of(img) as int, height_of(img) as int),
        _ => (height_of(img) as int, width_of(img) as int),
    }
}

/// Pixel `(ox, oy)` of `img` turned clockwise by `ori`.
pub open spec fn rotated_pixel(img: RgbaImage, ori: FieldOrientation, ox: int, oy: int) -> Pixel {
    let w = width_of(img) as int;
    let h = height_of(img) as int;
    match ori {
        FieldOrientation::Normal => pixel_at(img, ox as u32, oy as u32),
        FieldOrientation::Rotated90 => pixel_at(img, oy as u32, (h - 1 - ox) as u32),
        FieldOrientation::Rotated180 => pixel_at(img, (w - 1 - ox) as u32, (h - 1 - oy) as u32),
        FieldOrientation::Rotated270 => pixel_at(img, (w - 1 - oy) as u32, ox as u32),
    }
}

/// `out` is `img` turned clockwise by `ori`.
pub open spec fn is_rotation(img: RgbaImage, ori: FieldOrientation, out: RgbaImage) -> bool {
    &&& (width_of(out) as int, height_of(out) as int) == rotated_size(img, ori)
    &&& forall|ox: u32, oy: u32|
        ox < width_of(out) && oy < height_of(out) ==> #[trigger] pixel_at(out, ox, oy) == rotated_pixel(img, ori, ox as int, oy as int)
}

/// `img` turned a quarter clockwise.
pub fn rotate_90(img: &RgbaImage) -> (out: RgbaImage)
    ensures
        is_rotation(*img, FieldOrientation::Rotated90, out),
{
    let (w, h) = img.dimensions();
    let mut out = RgbaImage::new(h, w);
    let mut y: u32 = 0;
    while y < h
        invariant
            (w, h) == image_size(*img),
            image_size(out) == (h, w),
            y <= h,
            forall|ox: u32, oy: u32|
                ox < h && oy < w && h - 1 - ox < y ==> #[trigger] pixel_at(out, ox, oy) == rotated_pixel(
                    *img,
                    FieldOrientation::Rotated90,
                    ox as int,
                    oy as int,
                ),
        decreases h - y,
    {
        let mut x: u32 = 0;
        while x < w
            invariant
                (w, h) == image_size(*img),
                image_size(out) == (h, w),
                y < h,
                x <= w,
                forall|ox: u32, oy: u32|
                    ox < h && oy < w && (h - 1 - ox < y || (h - 1 - ox == y && oy < x)) ==> #[trigger] pixel_at(out, ox, oy)
                        == rotated_pixel(*img, FieldOrientation::Rotated90, ox as int, oy as int),
            decreases w - x,
        {
            let p = img.get_pixel(x, y);
            let ghost prev = out;
            out.put_pixel(h - 1 - y, x, p);
            assert forall|ox: u32, oy: u32| ox < h && oy < w && (ox, oy) != ((h - 1 - y) as u32, x) implies #[trigger] pixel_at(out, ox, oy)
                == pixel_at(prev, ox, oy) by {
                assert(image_contents(out)[(ox, oy)] == image_contents(prev)[(ox, oy)]);
            }
            x = x + 1;
        }
        y = y + 1;
    }
    out
}

/// `img` turned half a turn.
pub fn rotate_180(img: &RgbaImage) -> (out: RgbaImage)
    ensures
        is_rotation(*img, FieldOrientation::Rotated180, out),
{
    let (w, h) = img.dimensions();
    let mut out = RgbaImage::new(w, h);
    let mut y: u32 = 0;
    while y < h
        invariant
            (w, h) == image_size(*img),
            image_size(out) == (w, h),
            y <= h,
            forall|ox: u32, oy: u32|
                ox < w && oy < h && h - 1 - oy < y ==> #[trigger] pixel_at(out, ox, oy) == rotated_pixel(
                    *img,
                    FieldOrientation::Rotated180,
                    ox as int,
                    oy as int,
                ),
        decreases h - y,
    {
        let mut x: u32 = 0;
        while x < w
            invariant
                (w, h) == image_size(*img),
                image_size(out) == (w, h),
                y < h,
                x <= w,
                forall|ox: u32, oy: u32|
                    ox < w && oy < h && (h - 1 - oy < y || (h - 1 - oy == y && w - 1 - ox < x)) ==> #[trigger] pixel_at(
                        out,
                        ox,
                        oy,
                    ) == rotated_pixel(*img, FieldOrientation::Rotated180, ox as int, oy as int),
            decreases w - x,
        {
            let p = img.get_pixel(x, y);
            let ghost prev = out;
            out.put_pixel(w - 1 - x, h - 1 - y, p);
            assert forall|ox: u32, oy: u32| ox < w && oy < h && (ox, oy) != ((w - 1 - x) as u32, (h - 1 - y) as u32) implies #[trigger] pixel_at(
                out,
                ox,
                oy,
            ) == pixel_at(prev, ox, oy) by {
                assert(image_contents(out)[(ox, oy)] == image_contents(prev)[(ox, oy)]);
            }
            x = x + 1;
        }
        y = y + 1;
    }
    out
}

/// `img` turned three quarters clockwise.
pub fn rotate_270(img: &RgbaImage) -> (out: RgbaImage)
    ensures
        is_rotation(*img, FieldOrientation::Rotated270, out),
{
    let (w, h) = img.dimensions();
    let mut out = RgbaImage::new(h, w);
    let mut y: u32 = 0;
    while y < h
        invariant
            (w, h) == image_size(*img),
            image_size(out) == (h, w),
            y <= h,
            forall|ox: u32, oy: u32|
                ox < h && oy < w && ox < y ==> #[trigger] pixel_at(out, ox, oy) == rotated_pixel(
                    *img,
                    FieldOrientation::Rotated270,
                    ox as int,
                    oy as int,
                ),
        decreases h - y,
    {
        let mut x: u32 = 0;
        while x < w
            invariant
                (w, h) == image_size(*img),
                image_size(out) == (h, w),
                y < h,
                x <= w,
                forall|ox: u32, oy: u32|
                    ox < h && oy < w && (ox < y || (ox == y && w - 1 - oy < x)) ==> #[trigger] pixel_at(out, ox, oy)
                        == rotated_pixel(*img, FieldOrientation::Rotated270, ox as int, oy as int),
            decreases w - x,
        {
            let p = img.get_pixel(x, y);
            let ghost prev = out;
            out.put_pixel(y, w - 1 - x, p);
            assert forall|ox: u32, oy: u32| ox < h && oy < w && (ox, oy) != (y, (w - 1 - x) as u32) implies #[trigger] pixel_at(out, ox, oy)
                == pixel_at(prev, ox, oy) by {
                assert(image_contents(out)[(ox, oy)] == image_contents(prev)[(ox, oy)]);
            }
            x = x + 1;
        }
        y = y + 1;
    }
    out
}

/// Turning a quarter clockwise and then three quarters gives back the image.
pub proof fn rotate_90_then_270_restores(img: RgbaImage, turned: RgbaImage, back: RgbaImage)
    requires
        is_rotation(img, FieldOrientation::Rotated90, turned),
        is_rotation(turned, FieldOrientation::Rotated270, back),
    ensures
        image_size(back) == image_size(img),
        forall|x: u32, y: u32| x < width_of(img) && y < height_of(img) ==> #[trigger] pixel_at(back, x, y) == pixel_at(img, x, y),
{
    assert forall|x: u32, y: u32| x < width_of(img) && y < height_of(img) implies #[trigger] pixel_at(back, x, y) == pixel_at(img, x, y) by {
        let tx = (height_of(img) - 1 - y) as u32;
        assert(pixel_at(turned, tx, x) == rotated_pixel(img, FieldOrientation::Rotated90, tx as int, x as int));
    }
}

/// Turning half a turn twice gives back the image.
pub proof fn rotate_180_twice_restores(img: RgbaImage, turned: RgbaImage, back: RgbaImage)
    requires
        is_rotation(img, FieldOrientation::Rotated180, turned),
        is_rotation(turned, FieldOrientation::Rotated180, back),
    ensures
        image_size(back) == image_size(img),
        forall|x: u32, y: u32| x < width_of(img) && y < height_of(img) ==> #[trigger] pixel_at(back, x, y) == pixel_at(img, x, y),
{
    assert forall|x: u32, y: u32| x < width_of(img) && y < height_of(img) implies #[trigger] pixel_at(back, x, y) == pixel_at(img, x, y) by {
        let tx = (width_of(img) - 1 - x) as u32;
        let ty = (height_of(img) - 1 - y) as u32;
        assert(pixel_at(turned, tx, ty) == rotated_pixel(img, FieldOrientation::Rotated180, tx as int, ty as int));
    }
}

/// The colour of canvas pixel `(px, py)` after `img` is laid on it with its top-left corner
/// at `(x, y)`: the image's pixel where it covers the canvas with a non-zero alpha,
/// otherwise `under`.
pub open spec fn laid_pixel(img: RgbaImage, ori: FieldOrientation, x: int, y: int, under: Pixel, px: int, py: int) -> Pixel {
    let (rw, rh) = rotated_size(img, ori);
    let ix = px - x;
    let iy = py - y;
    if 0 <= ix < rw && 0 <= iy < rh && rotated_pixel(img, ori, ix, iy).3 > 0 {
        rotated_pixel(img, ori, ix, iy)
    } else {
        under
    }
}

/// `after` is `before` with `img`, turned by `ori`, laid on it at `(x, y)`.
pub open spec fn laid_on(before: RgbaImage, img: RgbaImage, ori: FieldOrientation, x: int, y: int, after: RgbaImage) -> bool {
    &&& image_size(after) == image_size(before)
    &&& forall|px: u32, py: u32|
        px < width_of(before) && py < height_of(before) ==> #[trigger] pixel_at(after, px, py) == laid_pixel(
            img,
            ori,
            x,
            y,
            pixel_at(before, px, py),
            px as int,
            py as int,
        )
}

/// Copies the pixels of `img` whose alpha is not zero onto the canvas, with the image's
/// top-left corner at `(x, y)`; what falls off the canvas is dropped.
pub fn overlay_at(canvas: &mut RgbaImage, img: &RgbaImage, x: i32, y: i32)
    requires
        canvas_addressable(*old(canvas)),
        canvas_addressable(*img),
        x + width_of(*img) <= i32::MAX + 1,
        y + height_of(*img) <= i32::MAX + 1,
    ensures
        laid_on(*old(canvas), *img, FieldOrientation::Normal, x as int, y as int, *final(canvas)),
{
    let ghost before = *canvas;
    let (cw, ch) = canvas.dimensions();
    let (iw, ih) = img.dimensions();
    let mut iy: u32 = 0;
    while iy < ih
        invariant
            (cw, ch) == image_size(before),
            (iw, ih) == image_size(*img),
            cw <= i32::MAX,
            ch <= i32::MAX,
            iw <= i32::MAX,
            ih <= i32::MAX,
            x + iw <= i32::MAX + 1,
            y + ih <= i32::MAX + 1,
            iy <= ih,
            image_size(*canvas) == image_size(before),
            forall|px: u32, py: u32|
                px < cw && py < ch ==> #[trigger] pixel_at(*canvas, px, py) == if py - y < iy {
                    laid_pixel(*img, FieldOrientation::Normal, x as int, y as int, pixel_at(before, px, py), px as int, py as int)
                } else {
                    pixel_at(before, px, py)
                },
        decreases ih - iy,
    {
        let mut ix: u32 = 0;
        while ix < iw
            invariant
                (cw, ch) == image_size(before),
                (iw, ih) == image_size(*img),
                cw <= i32::MAX,
                ch <= i32::MAX,
                iw <= i32::MAX,
                ih <= i32::MAX,
                x + iw <= i32::MAX + 1,
                y + ih <= i32::MAX + 1,
                iy < ih,
                ix <= iw,
                image_size(*canvas) == image_size(before),
                forall|px: u32, py: u32|
                    px < cw && py < ch ==> #[trigger] pixel_at(*canvas, px, py) == if py - y < iy || (py - y == iy && px
                        - x < ix) {
                        laid_pixel(*img, FieldOrientation::Normal, x as int, y as int, pixel_at(before, px, py), px as int, py as int)
                    } else {
                        pixel_at(before, px, py)
                    },
            decreases iw - ix,
        {
            let px = x + ix as i32;
            let py = y + iy as i32;
            let ghost prev = *canvas;
            if px >= 0 && py >= 0 && (px as u32) < cw && (py as u32) < ch {
                let pixel = img.get_pixel(ix, iy);
                if pixel.3 > 0 {
                    canvas.put_pixel(px as u32, py as u32, pixel);
                    assert forall|qx: u32, qy: u32| qx < cw && qy < ch && (qx, qy) != (px as u32, py as u32) implies #[trigger] pixel_at(
                        *canvas,
                        qx,
                        qy,
                    ) == pixel_at(prev, qx, qy) by {
                        assert(image_contents(*canvas)[(qx, qy)] == image_contents(prev)[(qx, qy)]);
                    }
                }
            }
            assert forall|qx: u32, qy: u32| qx < cw && qy < ch implies #[trigger] pixel_at(*canvas, qx, qy) == if qy - y < iy
                || (qy - y == iy && qx - x < ix + 1) {
                laid_pixel(*img, FieldOrientation::Normal, x as int, y as int, pixel_at(before, qx, qy), qx as int, qy as int)
            } else {
                pixel_at(before, qx, qy)
            } by {
                if qy - y == iy && qx - x == ix {
                    assert(qx as int == px as int && qy as int == py as int);
                } else {
                    assert(pixel_at(*canvas, qx, qy) == pixel_at(prev, qx, qy));
                }
            }
            ix = ix + 1;
        }
        iy = iy + 1;
    }
}

/// Where an image of size `w` by `h`, turned by `ori`, is placed for a field at `pos`: a
/// position measured from the bottom (a typeset position) is moved up or left by the
/// image's extent, kept on the label where the original code clamps it.
pub open spec fn typeset_position(pos: LabelPosition, ori: FieldOrientation, w: int, h: int) -> (int, int) {
    if !pos.calculate_from_bottom {
        (pos.x as int, pos.y as int)
    } else {
        match ori {
            FieldOrientation::Normal => (pos.x as int, if pos.y - h < 0 { 0 } else { pos.y - h }),
            FieldOrientation::Rotated180 => (pos.x - w, pos.y as int),
            FieldOrientation::Rotated270 => (if pos.x - h < 0 { 0 } else { pos.x - h }, pos.y - w),
            FieldOrientation::Rotated90 => (pos.x as int, pos.y as int),
        }
    }
}

/// The arithmetic of `typeset_position` stays within `i32`.
pub open spec fn typeset_fits(pos: LabelPosition, ori: FieldOrientation, w: int, h: int) -> bool {
    pos.calculate_from_bottom ==> match ori {
        FieldOrientation::Normal => fits_i32(pos.y - h),
        FieldOrientation::Rotated180 => fits_i32(pos.x - w),
        FieldOrientation::Rotated270 => fits_i32(pos.x - h) && fits_i32(pos.y - w),
        FieldOrientation::Rotated90 => true,
    }
}

/// The position at which the image of a field is drawn (see `typeset_position`); the
/// result is an origin position.
pub fn adjust_image_typeset_position(img: &RgbaImage, pos: &LabelPosition, ori: FieldOrientation) -> (p: LabelPosition)
    requires
        canvas_addressable(*img),
        typeset_fits(*pos, ori, width_of(*img) as int, height_of(*img) as int),
    ensures
        (p.x as int, p.y as int) == typeset_position(*pos, ori, width_of(*img) as int, height_of(*img) as int),
        p.calculate_from_bottom == false || !pos.calculate_from_bottom,
        !pos.calculate_from_bottom ==> p.calculate_from_bottom == pos.calculate_from_bottom && p.automatic_position
            == pos.automatic_position,
        pos.calculate_from_bottom ==> !p.automatic_position,
{
    if !pos.calculate_from_bottom {
        return LabelPosition {
            x: pos.x,
            y: pos.y,
            calculate_from_bottom: pos.calculate_from_bottom,
            automatic_position: pos.automatic_position,
        };
    }
    let width = img.width() as i32;
    let height = img.height() as i32;
    let mut x = pos.x;
    let mut y = pos.y;
    match ori {
        FieldOrientation::Normal => {
            y = if y - height < 0 {
                0
            } else {
                y - height
            };
        },
        FieldOrientation::Rotated180 => {
            x = x - width;
        },
        FieldOrientation::Rotated270 => {
            x = if x - height < 0 {
                0
            } else {
                x - height
            };
            y = y - width;
        },
        _ => {},
    }
    LabelPosition { x, y, calculate_from_bottom: false, automatic_position: false }
}

/// Lays `img`, turned clockwise by `orientation`, on the canvas at `pos` (see `overlay_at`).
pub fn overlay_with_rotation(canvas: &mut RgbaImage, img: &RgbaImage, pos: &LabelPosition, orientation: FieldOrientation)
    requires
        canvas_addressable(*old(canvas)),
        canvas_addressable(*img),
        pos.x + rotated_size(*img, orientation).0 <= i32::MAX + 1,
        pos.y + rotated_size(*img, orientation).1 <= i32::MAX + 1,
    ensures
        laid_on(*old(canvas), *img, orientation, pos.x as int, pos.y as int, *final(canvas)),
{
    let ghost before = *canvas;
    let rotated = match orientation {
        FieldOrientation::Normal => {
            overlay_at(canvas, img, pos.x, pos.y);
            return ;
        },
        FieldOrientation::Rotated90 => rotate_90(img),
        FieldOrientation::Rotated180 => rotate_180(img),
        FieldOrientation::Rotated270 => rotate_270(img),
    };
    overlay_at(canvas, &rotated, pos.x, pos.y);
    assert forall|px: u32, py: u32| px < width_of(before) && py < height_of(before) implies #[trigger] pixel_at(*canvas, px, py)
        == laid_pixel(*img, orientation, pos.x as int, pos.y as int, pixel_at(before, px, py), px as int, py as int) by {
        let ix = px - pos.x;
        let iy = py - pos.y;
        if 0 <= ix < width_of(rotated) && 0 <= iy < height_of(rotated) {
            assert(pixel_at(rotated, ix as u32, iy as u32) == rotated_pixel(*img, orientation, ix, iy));
        }
    }
}

/// `m / 2` for a circle's centre and radius, as the original float arithmetic gives it
/// once truncated: toward zero.
pub open spec fn circle_center(corner: int, diameter: int) -> int {
    half_toward_zero(2 * corner + diameter)
}

/// The circle's coordinates and diameter are at most 2^22 in magnitude, where the
/// half-pixel arithmetic of its centre is exact.
pub open spec fn circle_fits(gc: GraphicCircle) -> bool {
    &&& -0x40_0000 <= gc.position.x <= 0x40_0000
    &&& -0x40_0000 <= gc.position.y <= 0x40_0000
    &&& -0x40_0000 <= gc.circle_diameter <= 0x40_0000
}

/// `after` is `before` with the outline of the circle drawn in its line colour: the
/// midpoint circle round the centre of the square with corner at the circle's position
/// and side its diameter, with half the diameter as radius.
pub open spec fn circle_drawn(before: RgbaImage, after: RgbaImage, gc: GraphicCircle) -> bool {
    &&& image_size(after) == image_size(before)
    &&& forall|px: u32, py: u32|
        px < width_of(before) && py < height_of(before) ==> #[trigger] pixel_at(after, px, py) == if midpoint_circle(
            circle_center(gc.position.x as int, gc.circle_diameter as int) as i32,
            circle_center(gc.position.y as int, gc.circle_diameter as int) as i32,
            half_toward_zero(gc.circle_diameter as int) as i32,
        ).contains((px as int, py as int)) {
            line_color_pixel(gc.line_color)
        } else {
            pixel_at(before, px, py)
        }
}

/// Draws the outline of a circle one pixel wide, inside the square with corner at the
/// circle's position and side its diameter (see `circle_drawn`).
pub fn draw_graphic_circle(canvas: &mut RgbaImage, gc: &GraphicCircle)
    requires
        canvas_addressable(*old(canvas)),
        circle_fits(*gc),
    ensures
        circle_drawn(*old(canvas), *final(canvas), *gc),
{
    let color = line_color_to_rgba(gc.line_color);
    let cx = (2 * gc.position.x + gc.circle_diameter) / 2;
    let cy = (2 * gc.position.y + gc.circle_diameter) / 2;
    let radius = gc.circle_diameter / 2;
    canvas.draw_hollow_circle((cx, cy), radius, color);
}

/// The number of bytes of a graphic field that are drawn: `total_bytes` when it is positive
/// and not more than the data, otherwise all of the data.
pub open spec fn field_data_len(gf: GraphicField) -> int {
    if gf.total_bytes > 0 && (gf.total_bytes as int) < gf.data@.len() {
        gf.total_bytes as int
    } else {
        gf.data@.len() as int
    }
}

/// The number of whole rows of a graphic field.
pub open spec fn field_rows(gf: GraphicField) -> int {
    field_data_len(gf) / (gf.row_bytes as int)
}

pub open spec fn at_least_one(v: i32) -> int {
    if v < 1 {
        1
    } else {
        v as int
    }
}

/// Bit `(x, y)` of a graphic field's bitmap: bit `7 - x % 8` of byte `y * row_bytes + x / 8`.
pub open spec fn field_bit(gf: GraphicField, x: int, y: int) -> bool {
    let idx = y * gf.row_bytes + x / 8;
    idx < gf.data@.len() && (gf.data@[idx] >> ((7 - x % 8) as u32)) & 1 != 0
}

/// Canvas pixel `(px, py)` is painted black by the graphic field: it lies in the magnified
/// bitmap and its bit is set.
pub open spec fn field_painted(gf: GraphicField, px: int, py: int) -> bool {
    let mx = at_least_one(gf.magnification_x);
    let my = at_least_one(gf.magnification_y);
    let dx = px - gf.position.x;
    let dy = py - gf.position.y;
    &&& gf.row_bytes > 0
    &&& field_data_len(gf) > 0
    &&& 0 <= dx < gf.row_bytes * 8 * mx
    &&& 0 <= dy < field_rows(gf) * my
    &&& field_bit(gf, dx / mx, dy / my)
}

/// The graphic field's arithmetic stays within `i32`.
pub open spec fn field_fits(gf: GraphicField) -> bool {
    let mx = at_least_one(gf.magnification_x);
    let my = at_least_one(gf.magnification_y);
    (gf.row_bytes > 0 && field_data_len(gf) > 0) ==> {
        &&& gf.row_bytes * 8 * mx <= i32::MAX
        &&& gf.position.x + gf.row_bytes * 8 * mx <= i32::MAX + 1
        &&& field_data_len(gf) <= i32::MAX
        &&& field_rows(gf) * my <= i32::MAX
        &&& gf.position.y + field_rows(gf) * my <= i32::MAX + 1
    }
}

/// Whether the graphic field's arithmetic stays within `i32` (see `field_fits`).
pub fn field_fits_exec(gf: &GraphicField) -> (ok: bool)
    ensures
        ok == field_fits(*gf),
{
    let data_len: usize = if gf.total_bytes > 0 && (gf.total_bytes as usize) < gf.data.len() {
        gf.total_bytes as usize
    } else {
        gf.data.len()
    };
    if gf.row_bytes <= 0 || data_len == 0 {
        return true;
    }
    if data_len > 0x7fff_ffff {
        return false;
    }
    let mx: i128 = if gf.magnification_x < 1 {
        1
    } else {
        gf.magnification_x as i128
    };
    let my: i128 = if gf.magnification_y < 1 {
        1
    } else {
        gf.magnification_y as i128
    };
    let row_bytes = gf.row_bytes as i128;
    let rows: i128 = data_len as i128 / row_bytes;
    proof {
        vstd::arithmetic::div_mod::lemma_div_is_ordered_by_denominator(data_len as int, 1, row_bytes as int);
        assert(row_bytes * 8 * mx <= 0x7fff_ffff * 8 * 0x7fff_ffff) by (nonlinear_arith)
            requires 0 < row_bytes <= 0x7fff_ffff, 1 <= mx <= 0x7fff_ffff;
        assert(rows * my <= 0x7fff_ffff * 0x7fff_ffff) by (nonlinear_arith)
            requires 0 <= rows <= 0x7fff_ffff, 1 <= my <= 0x7fff_ffff;
        assert(0 <= rows * my) by (nonlinear_arith) requires 0 <= rows, 1 <= my;
    }
    let width = row_bytes * 8 * mx;
    let height = rows * my;
    width <= 0x7fff_ffff && gf.position.x as i128 + width <= 0x8000_0000 && height <= 0x7fff_ffff
        && gf.position.y as i128 + height <= 0x8000_0000
}

/// The painted pixels of the cells before cell `(x, y)` (row by row) and, within that cell,
/// before offset `(ox, oy)`.
pub open spec fn field_done(gf: GraphicField, y: int, x: int, oy: int, ox: int, px: int, py: int) -> bool {
    let mx = at_least_one(gf.magnification_x);
    let my = at_least_one(gf.magnification_y);
    let dx = px - gf.position.x;
    let dy = py - gf.position.y;
    let cx = dx / mx;
    let cy = dy / my;
    &&& field_painted(gf, px, py)
    &&& (cy < y || (cy == y && (cx < x || (cx == x && (dy % my < oy || (dy % my == oy && dx % mx < ox))))))
}

/// `after` is `before` with the pixels of `done` painted black.
pub open spec fn field_state(gf: GraphicField, before: RgbaImage, after: RgbaImage, y: int, x: int, oy: int, ox: int) -> bool {
    &&& image_size(after) == image_size(before)
    &&& forall|px: u32, py: u32|
        px < width_of(before) && py < height_of(before) ==> #[trigger] pixel_at(after, px, py) == if field_done(
            gf,
            y,
            x,
            oy,
            ox,
            px as int,
            py as int,
        ) {
            COLOR_BLACK
        } else {
            pixel_at(before, px, py)
        }
}

/// Draws a graphic field: every set bit of its bitmap becomes a black block of
/// `magnification_x` by `magnification_y` pixels (each at least one), the bitmap's top-left
/// corner at the field's position; the rest of the canvas is left as it is. Nothing is drawn
/// without positive `row_bytes` and some data.
pub fn draw_graphic_field(canvas: &mut RgbaImage, gf: &GraphicField)
    requires
        canvas_addressable(*old(canvas)),
        field_fits(*gf),
    ensures
        painted_where(*old(canvas), *final(canvas), COLOR_BLACK, |px: int, py: int| field_painted(*gf, px, py)),
{
    let ghost before = *canvas;
    let data_len = if gf.total_bytes > 0 && (gf.total_bytes as usize) < gf.data.len() {
        gf.total_bytes as usize
    } else {
        gf.data.len()
    };
    if gf.row_bytes <= 0 || data_len == 0 {
        return ;
    }
    let (cw, ch) = canvas.dimensions();
    let mag_x = if gf.magnification_x < 1 {
        1
    } else {
        gf.magnification_x
    };
    let mag_y = if gf.magnification_y < 1 {
        1
    } else {
        gf.magnification_y
    };
    let ghost g = *gf;
    proof {
        let w = gf.row_bytes * 8;
        let h = field_rows(g);
        assert(h >= 0) by {
            lemma_div_pos_is_pos(field_data_len(g), gf.row_bytes as int);
        }
        assert(w <= w * mag_x) by (nonlinear_arith) requires mag_x >= 1, w >= 0;
        assert(h <= h * mag_y) by (nonlinear_arith) requires mag_y >= 1, h >= 0;
    }
    let width = gf.row_bytes * 8;
    let height = data_len as i32 / gf.row_bytes;
    let mut y: i32 = 0;
    while y < height
        invariant
            g == *gf,
            (cw, ch) == image_size(before),
            cw <= i32::MAX,
            ch <= i32::MAX,
            gf.row_bytes > 0,
            field_data_len(g) > 0,
            field_fits(g),
            width == gf.row_bytes * 8,
            height == field_rows(g),
            mag_x == at_least_one(gf.magnification_x),
            mag_y == at_least_one(gf.magnification_y),
            0 <= y <= height,
            field_state(g, before, *canvas, y as int, 0, 0, 0),
        decreases height - y,
    {
        let mut x: i32 = 0;
        while x < width
            invariant
                g == *gf,
                (cw, ch) == image_size(before),
                cw <= i32::MAX,
                ch <= i32::MAX,
                gf.row_bytes > 0,
                field_data_len(g) > 0,
                field_fits(g),
                width == gf.row_bytes * 8,
                height == field_rows(g),
                mag_x == at_least_one(gf.magnification_x),
                mag_y == at_least_one(gf.magnification_y),
                0 <= y < height,
                0 <= x <= width,
                field_state(g, before, *canvas, y as int, x as int, 0, 0),
            decreases width - x,
        {
            proof {
                assert(y * gf.row_bytes + x / 8 < height * gf.row_bytes) by (nonlinear_arith)
                    requires 0 <= y < height, 0 <= x < width, width == gf.row_bytes * 8, gf.row_bytes > 0;
                assert(height * gf.row_bytes <= field_data_len(g)) by (nonlinear_arith)
                    requires height == field_data_len(g) / (gf.row_bytes as int), gf.row_bytes > 0, field_data_len(g) >= 0;
            }
            let idx = (y * (width / 8) + x / 8) as usize;
            let on = idx < gf.data.len() && (gf.data[idx] >> ((7 - x % 8) as u32)) & 1 != 0;
            assert(on == field_bit(g, x as int, y as int));
            if on {
                let mut my: i32 = 0;
                while my < mag_y
                    invariant
                        g == *gf,
                        (cw, ch) == image_size(before),
                        cw <= i32::MAX,
                        ch <= i32::MAX,
                        gf.row_bytes > 0,
                        field_data_len(g) > 0,
                        field_fits(g),
                        width == gf.row_bytes * 8,
                        height == field_rows(g),
                        mag_x == at_least_one(gf.magnification_x),
                        mag_y == at_least_one(gf.magnification_y),
                        0 <= y < height,
                        0 <= x < width,
                        field_bit(g, x as int, y as int),
                        0 <= my <= mag_y,
                        field_state(g, before, *canvas, y as int, x as int, my as int, 0),
                    decreases mag_y - my,
                {
                    let mut mx: i32 = 0;
                    while mx < mag_x
                        invariant
                            g == *gf,
                            (cw, ch) == image_size(before),
                            cw <= i32::MAX,
                            ch <= i32::MAX,
                            gf.row_bytes > 0,
                            field_data_len(g) > 0,
                            field_fits(g),
                            width == gf.row_bytes * 8,
                            height == field_rows(g),
                            mag_x == at_least_one(gf.magnification_x),
                            mag_y == at_least_one(gf.magnification_y),
                            0 <= y < height,
                            0 <= x < width,
                            field_bit(g, x as int, y as int),
                            0 <= my < mag_y,
                            0 <= mx <= mag_x,
                            field_state(g, before, *canvas, y as int, x as int, my as int, mx as int),
                        decreases mag_x - mx,
                    {
                        proof {
                            assert(x * mag_x + mx < width * mag_x) by (nonlinear_arith)
                                requires 0 <= x < width, 0 <= mx < mag_x;
                            assert(y * mag_y + my < height * mag_y) by (nonlinear_arith)
                                requires 0 <= y < height, 0 <= my < mag_y;
                            assert(0 <= x * mag_x) by (nonlinear_arith) requires 0 <= x, mag_x >= 1;
                            assert(0 <= y * mag_y) by (nonlinear_arith) requires 0 <= y, mag_y >= 1;
                        }
                        let px = gf.position.x + x * mag_x + mx;
                        let py = gf.position.y + y * mag_y + my;
                        let ghost prev = *canvas;
                        proof {
                            lemma_fundamental_div_mod_converse(px - gf.position.x, mag_x as int, x as int, mx as int);
                            lemma_fundamental_div_mod_converse(py - gf.position.y, mag_y as int, y as int, my as int);
                        }
                        if px >= 0 && py >= 0 && (px as u32) < cw && (py as u32) < ch {
                            canvas.put_pixel(px as u32, py as u32, COLOR_BLACK);
                            assert forall|qx: u32, qy: u32| qx < cw && qy < ch && (qx, qy) != (px as u32, py as u32) implies #[trigger] pixel_at(
                                *canvas,
                                qx,
                                qy,
                            ) == pixel_at(prev, qx, qy) by {
                                assert(image_contents(*canvas)[(qx, qy)] == image_contents(prev)[(qx, qy)]);
                            }
                        }
                        assert forall|qx: u32, qy: u32| qx < cw && qy < ch implies #[trigger] pixel_at(*canvas, qx, qy) == if field_done(
                            g,
                            y as int,
                            x as int,
                            my as int,
                            mx + 1,
                            qx as int,
                            qy as int,
                        ) {
                            COLOR_BLACK
                        } else {
                            pixel_at(before, qx, qy)
                        } by {
                            if qx as int == px as int && qy as int == py as int {
                            } else {
                                lemma_field_cell_unique(g, px as int, py as int, qx as int, qy as int);
                                assert(pixel_at(*canvas, qx, qy) == pixel_at(prev, qx, qy));
                            }
                        }
                        mx = mx + 1;
                    }
                    proof {
                        lemma_field_offset_row_done(g, before, *canvas, y as int, x as int, my as int);
                    }
                    my = my + 1;
                }
                proof {
                    lemma_field_cell_done(g, before, *canvas, y as int, x as int);
                }
            } else {
                proof {
                    lemma_field_cell_skipped(g, before, *canvas, y as int, x as int);
                }
            }
            x = x + 1;
        }
        proof {
            lemma_field_row_done(g, before, *canvas, y as int);
        }
        y = y + 1;
    }
    proof {
        assert forall|px: u32, py: u32| px < cw && py < ch implies #[trigger] pixel_at(*canvas, px, py) == if field_painted(
            g,
            px as int,
            py as int,
        ) {
            COLOR_BLACK
        } else {
            pixel_at(before, px, py)
        } by {
            if field_painted(g, px as int, py as int) {
                lemma_field_cell_bounds(g, px as int, py as int);
            }
        }
    }
}

proof fn lemma_field_cell_bounds(gf: GraphicField, px: int, py: int)
    requires
        field_painted(gf, px, py),
    ensures
        0 <= (px - gf.position.x) / at_least_one(gf.magnification_x) < gf.row_bytes * 8,
        0 <= (py - gf.position.y) / at_least_one(gf.magnification_y) < field_rows(gf),
        0 <= (px - gf.position.x) % at_least_one(gf.magnification_x) < at_least_one(gf.magnification_x),
        0 <= (py - gf.position.y) % at_least_one(gf.magnification_y) < at_least_one(gf.magnification_y),
{
    let mx = at_least_one(gf.magnification_x);
    let my = at_least_one(gf.magnification_y);
    let dx = px - gf.position.x;
    let dy = py - gf.position.y;
    lemma_mul_is_commutative(gf.row_bytes * 8, mx);
    lemma_mul_is_commutative(field_rows(gf), my);
    lemma_multiply_divide_lt(dx, mx, gf.row_bytes * 8);
    lemma_multiply_divide_lt(dy, my, field_rows(gf));
    lemma_div_pos_is_pos(dx, mx);
    lemma_div_pos_is_pos(dy, my);
}

/// Two pixels with the same cell and offset are the same pixel.
proof fn lemma_field_cell_unique(gf: GraphicField, px: int, py: int, qx: int, qy: int)
    requires
        !(px == qx && py == qy),
    ensures
        !((px - gf.position.x) / at_least_one(gf.magnification_x) == (qx - gf.position.x) / at_least_one(gf.magnification_x)
            && (px - gf.position.x) % at_least_one(gf.magnification_x) == (qx - gf.position.x) % at_least_one(gf.magnification_x)
            && (py - gf.position.y) / at_least_one(gf.magnification_y) == (qy - gf.position.y) / at_least_one(gf.magnification_y)
            && (py - gf.position.y) % at_least_one(gf.magnification_y) == (qy - gf.position.y) % at_least_one(gf.magnification_y)),
{
    let mx = at_least_one(gf.magnification_x);
    let my = at_least_one(gf.magnification_y);
    lemma_fundamental_div_mod(px - gf.position.x, mx);
    lemma_fundamental_div_mod(qx - gf.position.x, mx);
    lemma_fundamental_div_mod(py - gf.position.y, my);
    lemma_fundamental_div_mod(qy - gf.position.y, my);
}

proof fn lemma_field_offset_row_done(gf: GraphicField, before: RgbaImage, after: RgbaImage, y: int, x: int, oy: int)
    requires
        field_state(gf, before, after, y, x, oy, at_least_one(gf.magnification_x)),
    ensures
        field_state(gf, before, after, y, x, oy + 1, 0),
{
    assert forall|px: u32, py: u32| px < width_of(before) && py < height_of(before) implies #[trigger] pixel_at(after, px, py)
        == if field_done(gf, y, x, oy + 1, 0, px as int, py as int) {
        COLOR_BLACK
    } else {
        pixel_at(before, px, py)
    } by {
        if field_painted(gf, px as int, py as int) {
            lemma_field_cell_bounds(gf, px as int, py as int);
        }
    }
}

proof fn lemma_field_cell_done(gf: GraphicField, before: RgbaImage, after: RgbaImage, y: int, x: int)
    requires
        field_state(gf, before, after, y, x, at_least_one(gf.magnification_y), 0),
    ensures
        field_state(gf, before, after, y, x + 1, 0, 0),
{
    assert forall|px: u32, py: u32| px < width_of(before) && py < height_of(before) implies #[trigger] pixel_at(after, px, py)
        == if field_done(gf, y, x + 1, 0, 0, px as int, py as int) {
        COLOR_BLACK
    } else {
        pixel_at(before, px, py)
    } by {
        if field_painted(gf, px as int, py as int) {
            lemma_field_cell_bounds(gf, px as int, py as int);
        }
    }
}

proof fn lemma_field_cell_skipped(gf: GraphicField, before: RgbaImage, after: RgbaImage, y: int, x: int)
    requires
        field_state(gf, before, after, y, x, 0, 0),
        !field_bit(gf, x, y),
    ensures
        field_state(gf, before, after, y, x + 1, 0, 0),
{
    assert forall|px: u32, py: u32| px < width_of(before) && py < height_of(before) implies #[trigger] pixel_at(after, px, py)
        == if field_done(gf, y, x + 1, 0, 0, px as int, py as int) {
        COLOR_BLACK
    } else {
        pixel_at(before, px, py)
    } by {
        if field_painted(gf, px as int, py as int) {
            lemma_field_cell_bounds(gf, px as int, py as int);
        }
    }
}

proof fn lemma_field_row_done(gf: GraphicField, before: RgbaImage, after: RgbaImage, y: int)
    requires
        field_state(gf, before, after, y, gf.row_bytes * 8, 0, 0),
    ensures
        field_state(gf, before, after, y + 1, 0, 0, 0),
{
    assert forall|px: u32, py: u32| px < width_of(before) && py < height_of(before) implies #[trigger] pixel_at(after, px, py)
        == if field_done(gf, y + 1, 0, 0, 0, px as int, py as int) {
        COLOR_BLACK
    } else {
        pixel_at(before, px, py)
    } by {
        if field_painted(gf, px as int, py as int) {
            lemma_field_cell_bounds(gf, px as int, py as int);
        }
    }
}

} // verus!
