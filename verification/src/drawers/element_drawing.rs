use vstd::prelude::*;

use super::renderer::{
    adjust_image_typeset_position, box_drawn, box_fits, box_fits_exec, canvas_addressable, circle_drawn, circle_fits,
    draw_graphic_box, draw_graphic_circle, draw_graphic_field, field_fits, field_fits_exec, field_painted, laid_on,
    laid_pixel, overlay_with_rotation, painted_where, typeset_fits, typeset_position, Renderer,
};
use crate::images::{Pixel, COLOR_BLACK};
use crate::elements::label_element::LabelElement;
use crate::barcodes::code128::{auto_codes, barcode_modules, bars_drawable, draws_bars, no_mode_codes, weighted_sum, with_check};
use crate::barcodes::{aztec, code128, datamatrix, draws_grid, grid_drawable, grid_image_side, pdf417};
use crate::elements::barcode_128::{Barcode128WithData, BarcodeMode};
use crate::elements::barcode_aztec::BarcodeAztecWithData;
use crate::elements::barcode_datamatrix::BarcodeDatamatrixWithData;
use crate::elements::barcode_pdf417::BarcodePdf417WithData;
use crate::elements::field_orientation::FieldOrientation;
use crate::elements::graphic_circle::GraphicCircle;
use crate::elements::label_position::LabelPosition;
use crate::images::{height_of, pixel_at, same_image, width_of, RgbaImage};
use vstd::utf8::encode_utf8;

verus! {

/// The size of a `w` by `h` image turned clockwise by `ori`.
pub open spec fn turned_size(ori: FieldOrientation, w: int, h: int) -> (int, int) {
    match ori {
        FieldOrientation::Normal | FieldOrientation::Rotated180 => (w, h),
        _ => (h, w),
    }
}

/// An image of `w` by `h` pixels, turned by `ori`, can be laid at the typeset position of
/// `pos`: its sides and every coordinate on the way stay within `i32`.
pub open spec fn placement_fits(pos: LabelPosition, ori: FieldOrientation, w: int, h: int) -> bool {
    let (x, y) = typeset_position(pos, ori, w, h);
    let (rw, rh) = turned_size(ori, w, h);
    &&& w <= i32::MAX
    &&& h <= i32::MAX
    &&& typeset_fits(pos, ori, w, h)
    &&& x + rw <= i32::MAX + 1
    &&& y + rh <= i32::MAX + 1
}

/// Whether a `w` by `h` image, turned by `ori`, can be laid at the typeset position of
/// `pos` (see `placement_fits`).
pub fn placement_fits_exec(pos: &LabelPosition, ori: FieldOrientation, w: u32, h: u32) -> (ok: bool)
    ensures
        ok == placement_fits(*pos, ori, w as int, h as int),
{
    if w > 0x7fff_ffff || h > 0x7fff_ffff {
        return false;
    }
    let w = w as i64;
    let h = h as i64;
    let px = pos.x as i64;
    let py = pos.y as i64;
    let lo = i32::MIN as i64;
    let (x, y, fits): (i64, i64, bool) = if !pos.calculate_from_bottom {
        (px, py, true)
    } else {
        match ori {
            FieldOrientation::Normal => (
                px,
                if py - h < 0 {
                    0
                } else {
                    py - h
                },
                py - h >= lo,
            ),
            FieldOrientation::Rotated180 => (px - w, py, px - w >= lo),
            FieldOrientation::Rotated270 => (
                if px - h < 0 {
                    0
                } else {
                    px - h
                },
                py - w,
                px - h >= lo && py - w >= lo,
            ),
            FieldOrientation::Rotated90 => (px, py, true),
        }
    };
    let (rw, rh): (i64, i64) = match ori {
        FieldOrientation::Normal | FieldOrientation::Rotated180 => (w, h),
        _ => (h, w),
    };
    fits && x + rw <= 0x8000_0000 && y + rh <= 0x8000_0000
}

/// `after` is `before` with `img`, turned by `ori`, laid at the typeset position of `pos`.
pub open spec fn placed(before: RgbaImage, img: RgbaImage, pos: LabelPosition, ori: FieldOrientation, after: RgbaImage) -> bool {
    let (x, y) = typeset_position(pos, ori, width_of(img) as int, height_of(img) as int);
    laid_on(before, img, ori, x, y, after)
}

/// Lays the picture of a field, turned by `ori`, on the canvas at the field's position.
fn place_image(canvas: &mut RgbaImage, img: &RgbaImage, pos: &LabelPosition, ori: FieldOrientation)
    requires
        canvas_addressable(*old(canvas)),
        placement_fits(*pos, ori, width_of(*img) as int, height_of(*img) as int),
    ensures
        placed(*old(canvas), *img, *pos, ori, *final(canvas)),
{
    let p = adjust_image_typeset_position(img, pos, ori);
    overlay_with_rotation(canvas, img, &p, ori);
}

/// The modules of a Code 128 field: no-mode reads code set switches from the content,
/// every other mode encodes it automatically.
pub open spec fn code128_modules(bc: Barcode128WithData) -> Seq<bool> {
    if bc.barcode.mode == BarcodeMode::No {
        barcode_modules(with_check(no_mode_codes(bc.data@)))
    } else {
        barcode_modules(with_check(auto_codes(bc.data@)))
    }
}

/// A Code 128 field can be drawn: its checksum fits in `u32`, its picture in memory and
/// on the canvas's coordinates.
pub open spec fn code128_fits(bc: Barcode128WithData) -> bool {
    let codes = if bc.barcode.mode == BarcodeMode::No {
        no_mode_codes(bc.data@)
    } else {
        auto_codes(bc.data@)
    };
    let bw = code128::at_least_one(bc.width);
    let h = code128::at_least_one(bc.barcode.height);
    &&& bc.data@.len() < u32::MAX
    &&& weighted_sum(codes) <= u32::MAX
    &&& bars_drawable(code128_modules(bc).len() as int, bw, h)
    &&& placement_fits(bc.position, bc.barcode.orientation, code128_modules(bc).len() * bw, h)
}

/// The number of pixels on each edge of the Aztec picture of a field.
pub open spec fn aztec_side(bc: BarcodeAztecWithData) -> int {
    aztec::symbol_side(aztec::layer_count(encode_utf8(bc.data@).len() as int))
}

/// An Aztec field with content can be drawn: its picture fits in memory and on the
/// canvas's coordinates.
pub open spec fn aztec_fits(bc: BarcodeAztecWithData) -> bool {
    let mag = aztec::effective_magnification(bc.barcode.magnification);
    let n = grid_image_side(aztec_side(bc), 2, mag);
    bc.data@.len() > 0 ==> {
        &&& encode_utf8(bc.data@).len() * 8 <= usize::MAX
        &&& grid_drawable(aztec_side(bc), 2, mag)
        &&& placement_fits(bc.position, bc.barcode.orientation, n, n)
    }
}

/// A Data Matrix field with content can be drawn: its picture fits in memory and on the
/// canvas's coordinates; the field's height is the module size.
pub open spec fn datamatrix_fits(bc: BarcodeDatamatrixWithData) -> bool {
    let side = datamatrix::symbol_side(encode_utf8(bc.data@).len() as int);
    let mag = datamatrix::effective_magnification(bc.barcode.height);
    let n = grid_image_side(side, 2, mag);
    bc.data@.len() > 0 ==> {
        &&& encode_utf8(bc.data@).len() * 8 <= usize::MAX
        &&& grid_drawable(side, 2, mag)
        &&& placement_fits(bc.position, bc.barcode.orientation, n, n)
    }
}

/// A PDF417 field with content can be drawn: its picture fits in memory and on the
/// canvas's coordinates.
pub open spec fn pdf417_fits(bc: BarcodePdf417WithData) -> bool {
    let len = encode_utf8(bc.data@).len() as int;
    let cols = pdf417::column_total(bc.barcode.columns);
    let w = pdf417::symbol_width(cols);
    let h = pdf417::symbol_height(
        pdf417::row_total(len, cols, bc.barcode.rows),
        pdf417::row_height_of(bc.barcode.row_height),
    );
    bc.data@.len() > 0 ==> {
        &&& pdf417::symbol_fits(len, bc.barcode.row_height, bc.barcode.columns, bc.barcode.rows)
        &&& placement_fits(bc.position, bc.barcode.orientation, w, h)
    }
}

impl Renderer {
    /// Draws a Code 128 field: the bars of its content (see `code128_modules`), `width`
    /// pixels per module and `height` high (each at least one), laid at the field's position
    /// turned by its orientation.
    pub fn draw_barcode_128(&self, canvas: &mut RgbaImage, bc: &Barcode128WithData) -> (res: Result<(), String>)
        requires
            canvas_addressable(*old(canvas)),
            code128_fits(*bc),
        ensures
            res is Ok,
            exists|img: RgbaImage|
                #[trigger] draws_bars(
                    img,
                    code128_modules(*bc),
                    code128::at_least_one(bc.width),
                    code128::at_least_one(bc.barcode.height),
                ) && placed(*old(canvas), img, bc.position, bc.barcode.orientation, *final(canvas)),
    {
        let content = bc.data.as_str();
        let img = if bc.barcode.mode == BarcodeMode::No {
            match code128::encode_no_mode(content, bc.barcode.height, bc.width) {
                Ok((img, _text)) => img,
                Err(e) => {
                    return Err(e);
                },
            }
        } else {
            match code128::encode_auto(content, bc.barcode.height, bc.width) {
                Ok(img) => img,
                Err(e) => {
                    return Err(e);
                },
            }
        };
        place_image(canvas, &img, &bc.position, bc.barcode.orientation);
        Ok(())
    }

    /// Draws a PDF417 field: the symbol of its content laid at the field's position turned
    /// by its orientation; empty content is refused and nothing is drawn.
    pub fn draw_barcode_pdf417(&self, canvas: &mut RgbaImage, bc: &BarcodePdf417WithData) -> (res: Result<(), String>)
        requires
            canvas_addressable(*old(canvas)),
            pdf417_fits(*bc),
        ensures
            res is Err <==> bc.data@.len() == 0,
            res matches Err(e) ==> e@ == "PDF417: empty content"@ && *final(canvas) == *old(canvas),
            res is Ok ==> exists|img: RgbaImage|
                #[trigger] pdf417::draws_symbol(
                    img,
                    encode_utf8(bc.data@),
                    bc.barcode.row_height,
                    bc.barcode.columns,
                    bc.barcode.rows,
                ) && placed(*old(canvas), img, bc.position, bc.barcode.orientation, *final(canvas)),
    {
        let img = match pdf417::encode(
            bc.data.as_str(),
            bc.barcode.row_height,
            bc.barcode.columns,
            bc.barcode.rows,
            bc.barcode.truncate,
        ) {
            Ok(img) => img,
            Err(e) => {
                return Err(e);
            },
        };
        place_image(canvas, &img, &bc.position, bc.barcode.orientation);
        Ok(())
    }

    /// Draws an Aztec field: the symbol of its content, modules `magnification` pixels wide
    /// (at least one), laid at the field's position turned by its orientation; empty
    /// content is refused and nothing is drawn.
    pub fn draw_barcode_aztec(&self, canvas: &mut RgbaImage, bc: &BarcodeAztecWithData) -> (res: Result<(), String>)
        requires
            canvas_addressable(*old(canvas)),
            aztec_fits(*bc),
        ensures
            res is Err <==> bc.data@.len() == 0,
            res matches Err(e) ==> e@ == "Aztec: empty content"@ && *final(canvas) == *old(canvas),
            res is Ok ==> exists|img: RgbaImage|
                #[trigger] draws_grid(
                    img,
                    aztec::symbol_grid(encode_utf8(bc.data@)),
                    2,
                    aztec::effective_magnification(bc.barcode.magnification),
                ) && placed(*old(canvas), img, bc.position, bc.barcode.orientation, *final(canvas)),
    {
        let mag = if bc.barcode.magnification < 1 {
            1
        } else {
            bc.barcode.magnification
        };
        proof {
            aztec::lemma_layer_count_bounds(encode_utf8(bc.data@).len() as int);
        }
        let img = match aztec::encode(bc.data.as_str(), mag, bc.barcode.size) {
            Ok(img) => img,
            Err(e) => {
                return Err(e);
            },
        };
        place_image(canvas, &img, &bc.position, bc.barcode.orientation);
        Ok(())
    }

    /// Draws a Data Matrix field: the symbol of its content, modules `height` pixels wide
    /// (at least one), laid at the field's position turned by its orientation; empty
    /// content is refused and nothing is drawn.
    pub fn draw_barcode_datamatrix(&self, canvas: &mut RgbaImage, bc: &BarcodeDatamatrixWithData) -> (res: Result<(), String>)
        requires
            canvas_addressable(*old(canvas)),
            datamatrix_fits(*bc),
        ensures
            res is Err <==> bc.data@.len() == 0,
            res matches Err(e) ==> e@ == "DataMatrix: empty content"@ && *final(canvas) == *old(canvas),
            res is Ok ==> exists|img: RgbaImage|
                #[trigger] draws_grid(
                    img,
                    datamatrix::symbol_grid(encode_utf8(bc.data@)),
                    2,
                    datamatrix::effective_magnification(bc.barcode.height),
                ) && placed(*old(canvas), img, bc.position, bc.barcode.orientation, *final(canvas)),
    {
        let scale = if bc.barcode.height < 1 {
            1
        } else {
            bc.barcode.height
        };
        let img = match datamatrix::encode(bc.data.as_str(), scale) {
            Ok(img) => img,
            Err(e) => {
                return Err(e);
            },
        };
        place_image(canvas, &img, &bc.position, bc.barcode.orientation);
        Ok(())
    }
}

/// The element can be drawn by `Renderer::draw_element` without leaving `i32` coordinates
/// or memory: the conditions of its drawing function. Text, diagonal lines and circles
/// always qualify.
pub open spec fn element_drawable(element: LabelElement) -> bool {
    match element {
        LabelElement::Text(_) => true,
        LabelElement::DiagonalLine(_) => true,
        LabelElement::GraphicBox(gb) => box_fits(gb),
        LabelElement::GraphicCircle(_) => true,
        LabelElement::GraphicField(gf) => field_fits(gf),
        LabelElement::Barcode128(bc) => code128_fits(bc),
        LabelElement::BarcodePdf417(bc) => pdf417_fits(bc),
        LabelElement::BarcodeAztec(bc) => aztec_fits(bc),
        LabelElement::BarcodeDatamatrix(bc) => datamatrix_fits(bc),
    }
}

/// The element is one that `Renderer::draw_element` leaves to the caller: text, whose
/// glyphs come from a TrueType font, diagonal lines, drawn with float coordinates, and
/// circles too far out for the integer form of their float centre (see `circle_fits`).
pub open spec fn drawn_outside(element: LabelElement) -> bool {
    match element {
        LabelElement::Text(_) => true,
        LabelElement::DiagonalLine(_) => true,
        LabelElement::GraphicCircle(gc) => !circle_fits(gc),
        _ => false,
    }
}

/// The element is a two-dimensional barcode with empty content, which is refused.
pub open spec fn empty_symbol(element: LabelElement) -> bool {
    match element {
        LabelElement::BarcodePdf417(bc) => bc.data@.len() == 0,
        LabelElement::BarcodeAztec(bc) => bc.data@.len() == 0,
        LabelElement::BarcodeDatamatrix(bc) => bc.data@.len() == 0,
        _ => false,
    }
}

/// The error message for an element with empty content.
pub open spec fn empty_symbol_message(element: LabelElement) -> Seq<char> {
    match element {
        LabelElement::BarcodePdf417(_) => "PDF417: empty content"@,
        LabelElement::BarcodeAztec(_) => "Aztec: empty content"@,
        _ => "DataMatrix: empty content"@,
    }
}

/// `after` is `before` with the element drawn on it.
pub open spec fn element_drawn(before: RgbaImage, after: RgbaImage, element: LabelElement) -> bool {
    match element {
        LabelElement::GraphicBox(gb) => box_drawn(before, after, gb),
        LabelElement::GraphicCircle(gc) => if circle_fits(gc) {
            circle_drawn(before, after, gc)
        } else {
            after == before
        },
        LabelElement::GraphicField(gf) => painted_where(
            before,
            after,
            COLOR_BLACK,
            |px: int, py: int| field_painted(gf, px, py),
        ),
        LabelElement::Barcode128(bc) => exists|img: RgbaImage|
            #[trigger] draws_bars(
                img,
                code128_modules(bc),
                code128::at_least_one(bc.width),
                code128::at_least_one(bc.barcode.height),
            ) && placed(before, img, bc.position, bc.barcode.orientation, after),
        LabelElement::BarcodePdf417(bc) => exists|img: RgbaImage|
            #[trigger] pdf417::draws_symbol(
                img,
                encode_utf8(bc.data@),
                bc.barcode.row_height,
                bc.barcode.columns,
                bc.barcode.rows,
            ) && placed(before, img, bc.position, bc.barcode.orientation, after),
        LabelElement::BarcodeAztec(bc) => exists|img: RgbaImage|
            #[trigger] draws_grid(
                img,
                aztec::symbol_grid(encode_utf8(bc.data@)),
                2,
                aztec::effective_magnification(bc.barcode.magnification),
            ) && placed(before, img, bc.position, bc.barcode.orientation, after),
        LabelElement::BarcodeDatamatrix(bc) => exists|img: RgbaImage|
            #[trigger] draws_grid(
                img,
                datamatrix::symbol_grid(encode_utf8(bc.data@)),
                2,
                datamatrix::effective_magnification(bc.barcode.height),
            ) && placed(before, img, bc.position, bc.barcode.orientation, after),
        _ => after == before,
    }
}

/// Whether a circle's coordinates and diameter are within the bounds of `circle_fits`.
fn circle_fits_exec(gc: &GraphicCircle) -> (ok: bool)
    ensures
        ok == circle_fits(*gc),
{
    let lo: i32 = -0x40_0000;
    let hi: i32 = 0x40_0000;
    lo <= gc.position.x && gc.position.x <= hi && lo <= gc.position.y && gc.position.y <= hi && lo
        <= gc.circle_diameter && gc.circle_diameter <= hi
}

/// Whether a Code 128 field can be drawn (see `code128_fits`).
fn code128_fits_exec(bc: &Barcode128WithData) -> (ok: bool)
    ensures
        ok == code128_fits(*bc),
{
    let content = bc.data.as_str();
    let size = if bc.barcode.mode == BarcodeMode::No {
        code128::no_mode_size(content, bc.barcode.height, bc.width)
    } else {
        code128::auto_size(content, bc.barcode.height, bc.width)
    };
    match size {
        Some((w, h)) => placement_fits_exec(&bc.position, bc.barcode.orientation, w, h),
        None => false,
    }
}

/// Whether a PDF417 field can be drawn (see `pdf417_fits`).
fn pdf417_fits_exec(bc: &BarcodePdf417WithData) -> (ok: bool)
    ensures
        ok == pdf417_fits(*bc),
{
    let content = bc.data.as_str();
    if content.unicode_len() == 0 {
        return true;
    }
    let len = content.as_bytes().len();
    match pdf417::symbol_size(len, bc.barcode.row_height, bc.barcode.columns, bc.barcode.rows) {
        Some((w, h)) => placement_fits_exec(&bc.position, bc.barcode.orientation, w, h),
        None => false,
    }
}

/// Whether an Aztec field can be drawn (see `aztec_fits`).
fn aztec_fits_exec(bc: &BarcodeAztecWithData) -> (ok: bool)
    ensures
        ok == aztec_fits(*bc),
{
    let content = bc.data.as_str();
    if content.unicode_len() == 0 {
        return true;
    }
    match aztec::picture_side(content, bc.barcode.magnification) {
        Some(n) => placement_fits_exec(&bc.position, bc.barcode.orientation, n, n),
        None => false,
    }
}

/// Whether a Data Matrix field can be drawn (see `datamatrix_fits`).
fn datamatrix_fits_exec(bc: &BarcodeDatamatrixWithData) -> (ok: bool)
    ensures
        ok == datamatrix_fits(*bc),
{
    let content = bc.data.as_str();
    if content.unicode_len() == 0 {
        return true;
    }
    match datamatrix::picture_side(content, bc.barcode.height) {
        Some(n) => placement_fits_exec(&bc.position, bc.barcode.orientation, n, n),
        None => false,
    }
}

impl Renderer {
    /// Whether `draw_element` can take the element on this canvas (see
    /// `element_drawable`).
    pub fn can_draw(&self, canvas: &RgbaImage, element: &LabelElement) -> (ok: bool)
        ensures
            ok == (canvas_addressable(*canvas) && element_drawable(*element)),
    {
        let (w, h) = canvas.dimensions();
        if w > 0x7fff_ffff || h > 0x7fff_ffff {
            return false;
        }
        match element {
            LabelElement::Text(_) => true,
            LabelElement::DiagonalLine(_) => true,
            LabelElement::GraphicBox(gb) => box_fits_exec(gb),
            LabelElement::GraphicCircle(_) => true,
            LabelElement::GraphicField(gf) => field_fits_exec(gf),
            LabelElement::Barcode128(bc) => code128_fits_exec(bc),
            LabelElement::BarcodePdf417(bc) => pdf417_fits_exec(bc),
            LabelElement::BarcodeAztec(bc) => aztec_fits_exec(bc),
            LabelElement::BarcodeDatamatrix(bc) => datamatrix_fits_exec(bc),
        }
    }

    /// Draws an element on the canvas and says whether it did: boxes, circles, graphic
    /// fields and barcodes are drawn here (see `element_drawn`); text, diagonal lines and
    /// circles beyond `circle_fits` are left to the caller (`Ok(false)`, the canvas
    /// untouched, see `drawn_outside`). A two-dimensional barcode
    /// with empty content gives its encoder's error and leaves the canvas untouched.
    pub fn draw_element(&self, canvas: &mut RgbaImage, element: &LabelElement) -> (res: Result<bool, String>)
        requires
            canvas_addressable(*old(canvas)),
            element_drawable(*element),
        ensures
            res is Err <==> empty_symbol(*element),
            res matches Err(e) ==> e@ == empty_symbol_message(*element) && *final(canvas) == *old(canvas),
            res matches Ok(drawn) ==> drawn == !drawn_outside(*element) && element_drawn(
                *old(canvas),
                *final(canvas),
                *element,
            ),
    {
        match element {
            LabelElement::Text(_) => Ok(false),
            LabelElement::DiagonalLine(_) => Ok(false),
            LabelElement::GraphicBox(gb) => {
                draw_graphic_box(canvas, gb);
                Ok(true)
            },
            LabelElement::GraphicCircle(gc) => {
                if circle_fits_exec(gc) {
                    draw_graphic_circle(canvas, gc);
                    Ok(true)
                } else {
                    Ok(false)
                }
            },
            LabelElement::GraphicField(gf) => {
                draw_graphic_field(canvas, gf);
                Ok(true)
            },
            LabelElement::Barcode128(bc) => match self.draw_barcode_128(canvas, bc) {
                Ok(()) => Ok(true),
                Err(e) => Err(e),
            },
            LabelElement::BarcodePdf417(bc) => match self.draw_barcode_pdf417(canvas, bc) {
                Ok(()) => Ok(true),
                Err(e) => Err(e),
            },
            LabelElement::BarcodeAztec(bc) => match self.draw_barcode_aztec(canvas, bc) {
                Ok(()) => Ok(true),
                Err(e) => Err(e),
            },
            LabelElement::BarcodeDatamatrix(bc) => match self.draw_barcode_datamatrix(canvas, bc) {
                Ok(()) => Ok(true),
                Err(e) => Err(e),
            },
        }
    }
}

/// Images with the same pixels lay the same colours on a canvas.
proof fn lemma_laid_pixel_same(img1: RgbaImage, img2: RgbaImage, ori: FieldOrientation, x: int, y: int, under: Pixel, px: int, py: int)
    requires
        same_image(img1, img2),
    ensures
        laid_pixel(img1, ori, x, y, under, px, py) == laid_pixel(img2, ori, x, y, under, px, py),
{
    let ix = px - x;
    let iy = py - y;
    let w = width_of(img1) as int;
    let h = height_of(img1) as int;
    match ori {
        FieldOrientation::Normal => {
            if 0 <= ix < w && 0 <= iy < h {
                assert(pixel_at(img1, ix as u32, iy as u32) == pixel_at(img2, ix as u32, iy as u32));
            }
        },
        FieldOrientation::Rotated90 => {
            if 0 <= ix < h && 0 <= iy < w {
                assert(pixel_at(img1, iy as u32, (h - 1 - ix) as u32) == pixel_at(img2, iy as u32, (h - 1 - ix) as u32));
            }
        },
        FieldOrientation::Rotated180 => {
            if 0 <= ix < w && 0 <= iy < h {
                assert(pixel_at(img1, (w - 1 - ix) as u32, (h - 1 - iy) as u32) == pixel_at(
                    img2,
                    (w - 1 - ix) as u32,
                    (h - 1 - iy) as u32,
                ));
            }
        },
        FieldOrientation::Rotated270 => {
            if 0 <= ix < h && 0 <= iy < w {
                assert(pixel_at(img1, (w - 1 - iy) as u32, ix as u32) == pixel_at(img2, (w - 1 - iy) as u32, ix as u32));
            }
        },
    }
}

/// Pictures with the same pixels, laid the same way on canvases with the same pixels,
/// give canvases with the same pixels.
proof fn lemma_placed_same(
    before1: RgbaImage,
    before2: RgbaImage,
    img1: RgbaImage,
    img2: RgbaImage,
    pos: LabelPosition,
    ori: FieldOrientation,
    after1: RgbaImage,
    after2: RgbaImage,
)
    requires
        same_image(before1, before2),
        same_image(img1, img2),
        placed(before1, img1, pos, ori, after1),
        placed(before2, img2, pos, ori, after2),
    ensures
        same_image(after1, after2),
{
    let (x, y) = typeset_position(pos, ori, width_of(img1) as int, height_of(img1) as int);
    assert forall|px: u32, py: u32| px < width_of(after1) && py < height_of(after1) implies #[trigger] pixel_at(after1, px, py)
        == pixel_at(after2, px, py) by {
        assert(pixel_at(before1, px, py) == pixel_at(before2, px, py));
        lemma_laid_pixel_same(img1, img2, ori, x, y, pixel_at(before1, px, py), px as int, py as int);
    }
}

/// Drawing an element is deterministic: drawn on canvases with the same pixels, it gives
/// canvases with the same pixels.
pub proof fn element_drawing_is_deterministic(
    element: LabelElement,
    before1: RgbaImage,
    after1: RgbaImage,
    before2: RgbaImage,
    after2: RgbaImage,
)
    requires
        same_image(before1, before2),
        element_drawn(before1, after1, element),
        element_drawn(before2, after2, element),
    ensures
        same_image(after1, after2),
{
    match element {
        LabelElement::Barcode128(bc) => {
            let m = code128_modules(bc);
            let bw = code128::at_least_one(bc.width);
            let h = code128::at_least_one(bc.barcode.height);
            let img1 = choose|img: RgbaImage| #[trigger] draws_bars(img, m, bw, h) && placed(before1, img, bc.position, bc.barcode.orientation, after1);
            let img2 = choose|img: RgbaImage| #[trigger] draws_bars(img, m, bw, h) && placed(before2, img, bc.position, bc.barcode.orientation, after2);
            assert(same_image(img1, img2)) by {
                assert forall|x: u32, y: u32| x < width_of(img1) && y < height_of(img1) implies #[trigger] pixel_at(img1, x, y)
                    == pixel_at(img2, x, y) by {
                    vstd::arithmetic::mul::lemma_mul_is_commutative(m.len() as int, bw);
                }
            }
            lemma_placed_same(before1, before2, img1, img2, bc.position, bc.barcode.orientation, after1, after2);
        },
        LabelElement::BarcodePdf417(bc) => {
            let bytes = encode_utf8(bc.data@);
            let img1 = choose|img: RgbaImage| #[trigger] pdf417::draws_symbol(img, bytes, bc.barcode.row_height, bc.barcode.columns, bc.barcode.rows) && placed(before1, img, bc.position, bc.barcode.orientation, after1);
            let img2 = choose|img: RgbaImage| #[trigger] pdf417::draws_symbol(img, bytes, bc.barcode.row_height, bc.barcode.columns, bc.barcode.rows) && placed(before2, img, bc.position, bc.barcode.orientation, after2);
            assert(same_image(img1, img2));
            lemma_placed_same(before1, before2, img1, img2, bc.position, bc.barcode.orientation, after1, after2);
        },
        LabelElement::BarcodeAztec(bc) => {
            let grid = aztec::symbol_grid(encode_utf8(bc.data@));
            let mag = aztec::effective_magnification(bc.barcode.magnification);
            let img1 = choose|img: RgbaImage| #[trigger] draws_grid(img, grid, 2, mag) && placed(before1, img, bc.position, bc.barcode.orientation, after1);
            let img2 = choose|img: RgbaImage| #[trigger] draws_grid(img, grid, 2, mag) && placed(before2, img, bc.position, bc.barcode.orientation, after2);
            assert(same_image(img1, img2));
            lemma_placed_same(before1, before2, img1, img2, bc.position, bc.barcode.orientation, after1, after2);
        },
        LabelElement::BarcodeDatamatrix(bc) => {
            let grid = datamatrix::symbol_grid(encode_utf8(bc.data@));
            let mag = datamatrix::effective_magnification(bc.barcode.height);
            let img1 = choose|img: RgbaImage| #[trigger] draws_grid(img, grid, 2, mag) && placed(before1, img, bc.position, bc.barcode.orientation, after1);
            let img2 = choose|img: RgbaImage| #[trigger] draws_grid(img, grid, 2, mag) && placed(before2, img, bc.position, bc.barcode.orientation, after2);
            assert(same_image(img1, img2));
            lemma_placed_same(before1, before2, img1, img2, bc.position, bc.barcode.orientation, after1, after2);
        },
        _ => {
            assert forall|x: u32, y: u32| x < width_of(after1) && y < height_of(after1) implies #[trigger] pixel_at(after1, x, y)
                == pixel_at(after2, x, y) by {
                assert(pixel_at(before1, x, y) == pixel_at(before2, x, y));
            }
        },
    }
}

} // verus!
