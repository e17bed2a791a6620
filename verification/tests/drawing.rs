use labelize::drawers::label_canvas::{finish_canvas, image_width};
use labelize::drawers::label_drawing::{LabelDrawing, Progress};
use labelize::drawers::renderer::{
    adjust_image_typeset_position, box_fits_exec, draw_filled_rect, draw_graphic_box, draw_graphic_circle,
    draw_graphic_field, field_fits_exec, line_color_to_rgba, overlay_at, rotate_180, rotate_270, rotate_90,
    ttf_font_for, TtfFont,
};
use labelize::elements::barcode_128::{Barcode128, Barcode128WithData, BarcodeMode};
use labelize::elements::barcode_aztec::{BarcodeAztec, BarcodeAztecWithData};
use labelize::elements::field_alignment::FieldAlignment;
use labelize::elements::field_orientation::FieldOrientation;
use labelize::elements::font::FontInfo;
use labelize::elements::graphic_box::GraphicBox;
use labelize::elements::graphic_circle::GraphicCircle;
use labelize::elements::graphic_diagonal_line::GraphicDiagonalLine;
use labelize::elements::graphic_field::GraphicField;
use labelize::elements::label_element::LabelElement;
use labelize::elements::label_info::LabelInfo;
use labelize::elements::label_position::LabelPosition;
use labelize::elements::line_color::LineColor;
use labelize::elements::reverse_print::ReversePrint;
use labelize::elements::text_field::TextField;
use labelize::images::reverse_print::reverse_print;
use labelize::images::scaled::{new_scaled, new_scaled_1d_height};
use labelize::images::RgbaImage;
use labelize::Renderer;

const BLACK: (u8, u8, u8, u8) = (0, 0, 0, 255);
const WHITE: (u8, u8, u8, u8) = (255, 255, 255, 255);
const CLEAR: (u8, u8, u8, u8) = (0, 0, 0, 0);

fn at(x: i32, y: i32) -> LabelPosition {
    LabelPosition { x, y, calculate_from_bottom: false, automatic_position: false }
}

fn from_bottom(x: i32, y: i32) -> LabelPosition {
    LabelPosition { x, y, calculate_from_bottom: true, automatic_position: false }
}

fn boxed(x: i32, y: i32, w: i32, h: i32, border: i32, reverse: bool) -> GraphicBox {
    GraphicBox {
        reverse_print: ReversePrint { value: reverse },
        position: at(x, y),
        width: w,
        height: h,
        border_thickness: border,
        corner_rounding: 0,
        line_color: LineColor::Black,
    }
}

fn count(img: &RgbaImage, p: (u8, u8, u8, u8)) -> usize {
    let mut n = 0;
    for y in 0..img.height() {
        for x in 0..img.width() {
            if img.get_pixel(x, y) == p {
                n += 1;
            }
        }
    }
    n
}

// --- Boxes ---

#[test]
fn graphic_box_renders_black_pixels_in_box_region() {
    let mut canvas = RgbaImage::from_pixel(813, 1626, WHITE);
    let gb = boxed(10, 10, 100, 50, 3, false);
    assert!(box_fits_exec(&gb));
    draw_graphic_box(&mut canvas, &gb);
    assert_eq!(canvas.get_pixel(10, 10), BLACK);
    assert_eq!(canvas.get_pixel(canvas.width() - 1, canvas.height() - 1), WHITE);
}

#[test]
fn box_border_strips_and_hollow_inside() {
    let mut canvas = RgbaImage::from_pixel(20, 20, WHITE);
    draw_graphic_box(&mut canvas, &boxed(2, 3, 10, 8, 2, false));
    assert_eq!(canvas.get_pixel(2, 3), BLACK);
    assert_eq!(canvas.get_pixel(3, 4), BLACK);
    assert_eq!(canvas.get_pixel(11, 10), BLACK);
    assert_eq!(canvas.get_pixel(6, 6), WHITE);
    assert_eq!(canvas.get_pixel(12, 3), WHITE);
    // Border 2 on a 10 by 8 box: 80 - 6 * 4 pixels.
    assert_eq!(count(&canvas, BLACK), 80 - 24);
}

#[test]
fn box_thicker_than_itself_is_filled() {
    let mut canvas = RgbaImage::from_pixel(10, 10, WHITE);
    draw_graphic_box(&mut canvas, &boxed(1, 1, 3, 0, 4, false));
    // Width and height grow to the border thickness: a filled 4 by 4 square.
    assert_eq!(count(&canvas, BLACK), 16);
    assert_eq!(canvas.get_pixel(4, 4), BLACK);
    assert_eq!(canvas.get_pixel(5, 5), WHITE);
}

#[test]
fn rounded_box_is_cleared_inside() {
    let mut canvas = RgbaImage::from_pixel(12, 12, BLACK);
    let mut gb = boxed(0, 0, 10, 10, 2, false);
    gb.corner_rounding = 3;
    draw_graphic_box(&mut canvas, &gb);
    assert_eq!(canvas.get_pixel(5, 5), WHITE);
    assert_eq!(canvas.get_pixel(1, 1), BLACK);
    assert_eq!(canvas.get_pixel(11, 11), BLACK);
}

#[test]
fn box_partly_off_canvas_is_clipped() {
    let mut canvas = RgbaImage::from_pixel(5, 5, WHITE);
    draw_graphic_box(&mut canvas, &boxed(-3, -3, 6, 6, 6, false));
    assert_eq!(count(&canvas, BLACK), 9);
    draw_filled_rect(&mut canvas, 4, 4, 10, 10, (1, 2, 3, 4));
    assert_eq!(canvas.get_pixel(4, 4), (1, 2, 3, 4));
}

#[test]
fn box_fit_check_refuses_overflow() {
    assert!(!box_fits_exec(&boxed(i32::MAX - 2, 0, 10, 10, 1, false)));
    assert!(box_fits_exec(&boxed(i32::MAX - 20, 0, 10, 10, 1, false)));
}

#[test]
fn white_line_colour() {
    assert_eq!(line_color_to_rgba(LineColor::White), WHITE);
    assert_eq!(line_color_to_rgba(LineColor::Black), BLACK);
}

// --- Circles ---

#[test]
fn graphic_circle_renders_non_white_pixels() {
    let mut canvas = RgbaImage::from_pixel(813, 1626, WHITE);
    let gc = GraphicCircle {
        reverse_print: ReversePrint { value: false },
        position: at(50, 50),
        circle_diameter: 80,
        border_thickness: 3,
        line_color: LineColor::Black,
    };
    draw_graphic_circle(&mut canvas, &gc);
    // Centre (90, 90), radius 40: the rightmost point of the outline is painted.
    assert_eq!(canvas.get_pixel(130, 90), BLACK);
    assert_eq!(canvas.get_pixel(90, 90), WHITE);
    assert!(count(&canvas, BLACK) > 0);
}

// --- Graphic fields ---

#[test]
fn graphic_field_paints_set_bits_magnified() {
    let mut canvas = RgbaImage::from_pixel(20, 10, WHITE);
    let gf = GraphicField {
        reverse_print: ReversePrint { value: false },
        position: at(1, 2),
        data: vec![0b1000_0001, 0b0100_0000],
        total_bytes: 0,
        row_bytes: 1,
        magnification_x: 2,
        magnification_y: 0,
    };
    assert!(field_fits_exec(&gf));
    draw_graphic_field(&mut canvas, &gf);
    assert_eq!(canvas.get_pixel(1, 2), BLACK);
    assert_eq!(canvas.get_pixel(2, 2), BLACK);
    assert_eq!(canvas.get_pixel(3, 2), WHITE);
    assert_eq!(canvas.get_pixel(15, 2), BLACK);
    assert_eq!(canvas.get_pixel(16, 2), BLACK);
    assert_eq!(canvas.get_pixel(3, 3), BLACK);
    assert_eq!(canvas.get_pixel(1, 3), WHITE);
    assert_eq!(count(&canvas, BLACK), 6);
}

#[test]
fn graphic_field_total_bytes_limits_rows() {
    let mut canvas = RgbaImage::from_pixel(8, 4, WHITE);
    let gf = GraphicField {
        reverse_print: ReversePrint { value: false },
        position: at(0, 0),
        data: vec![0xff, 0xff, 0xff],
        total_bytes: 2,
        row_bytes: 1,
        magnification_x: 1,
        magnification_y: 1,
    };
    draw_graphic_field(&mut canvas, &gf);
    assert_eq!(count(&canvas, BLACK), 16);
    let mut empty = gf.clone();
    empty.row_bytes = 0;
    let mut other = RgbaImage::from_pixel(8, 4, WHITE);
    draw_graphic_field(&mut other, &empty);
    assert_eq!(count(&other, BLACK), 0);
}

// --- Rotation and placement ---

fn strip() -> RgbaImage {
    // 3 by 2: a distinct colour per pixel.
    let mut img = RgbaImage::new(3, 2);
    for y in 0..2u32 {
        for x in 0..3u32 {
            img.put_pixel(x, y, (x as u8, y as u8, 7, 255));
        }
    }
    img
}

#[test]
fn rotations_turn_clockwise() {
    let img = strip();
    let r90 = rotate_90(&img);
    assert_eq!(r90.dimensions(), (2, 3));
    assert_eq!(r90.get_pixel(1, 0), img.get_pixel(0, 0));
    assert_eq!(r90.get_pixel(0, 0), img.get_pixel(0, 1));
    let r180 = rotate_180(&img);
    assert_eq!(r180.get_pixel(0, 0), img.get_pixel(2, 1));
    let r270 = rotate_270(&img);
    assert_eq!(r270.get_pixel(0, 0), img.get_pixel(2, 0));
}

#[test]
fn quarter_turns_there_and_back_restore() {
    let img = strip();
    let back = rotate_270(&rotate_90(&img));
    assert_eq!(back.to_rgba_bytes(), img.to_rgba_bytes());
    let twice = rotate_180(&rotate_180(&img));
    assert_eq!(twice.to_rgba_bytes(), img.to_rgba_bytes());
}

#[test]
fn overlay_skips_transparent_pixels_and_clips() {
    let mut canvas = RgbaImage::from_pixel(4, 4, WHITE);
    let mut img = RgbaImage::from_pixel(2, 2, BLACK);
    img.put_pixel(1, 1, CLEAR);
    overlay_at(&mut canvas, &img, 3, -1);
    assert_eq!(canvas.get_pixel(3, 0), BLACK);
    assert_eq!(count(&canvas, BLACK), 1);
    overlay_at(&mut canvas, &img, 0, 0);
    assert_eq!(canvas.get_pixel(1, 1), WHITE);
    assert_eq!(canvas.get_pixel(0, 1), BLACK);
}

#[test]
fn typeset_positions_move_by_image_extent() {
    let img = RgbaImage::new(30, 10);
    let p = adjust_image_typeset_position(&img, &from_bottom(100, 50), FieldOrientation::Normal);
    assert_eq!((p.x, p.y, p.calculate_from_bottom), (100, 40, false));
    let p = adjust_image_typeset_position(&img, &from_bottom(5, 5), FieldOrientation::Normal);
    assert_eq!((p.x, p.y), (5, 0));
    let p = adjust_image_typeset_position(&img, &from_bottom(100, 50), FieldOrientation::Rotated180);
    assert_eq!((p.x, p.y), (70, 50));
    let p = adjust_image_typeset_position(&img, &from_bottom(100, 50), FieldOrientation::Rotated270);
    assert_eq!((p.x, p.y), (90, 20));
    let p = adjust_image_typeset_position(&img, &from_bottom(100, 50), FieldOrientation::Rotated90);
    assert_eq!((p.x, p.y), (100, 50));
    let p = adjust_image_typeset_position(&img, &at(7, 8), FieldOrientation::Rotated270);
    assert_eq!((p.x, p.y), (7, 8));
}

// --- Fonts ---

#[test]
fn ttf_fonts_by_name() {
    assert_eq!(ttf_font_for("0"), TtfFont::HelveticaBoldCondensed);
    assert_eq!(ttf_font_for("B"), TtfFont::DejaVuSansMonoBold);
    assert_eq!(ttf_font_for("GS"), TtfFont::ZplGs);
    assert_eq!(ttf_font_for("A"), TtfFont::DejaVuSansMono);
    assert_eq!(ttf_font_for("G"), TtfFont::DejaVuSansMono);
}

// --- Reverse print and scaling ---

#[test]
fn reverse_print_inverts_under_opaque_mask() {
    let mut background = RgbaImage::from_pixel(3, 1, (10, 20, 30, 255));
    let mut mask = RgbaImage::from_pixel(3, 1, CLEAR);
    mask.put_pixel(0, 0, (0, 0, 0, 30));
    mask.put_pixel(1, 0, (0, 0, 0, 29));
    reverse_print(&mask, &mut background);
    assert_eq!(background.get_pixel(0, 0), (245, 235, 225, 255));
    assert_eq!(background.get_pixel(1, 0), (10, 20, 30, 255));
    reverse_print(&mask, &mut background);
    assert_eq!(background.get_pixel(0, 0), (10, 20, 30, 255));
}

#[test]
fn scaling_repeats_pixels() {
    let img = strip();
    let big = new_scaled(&img, 2, 3);
    assert_eq!(big.dimensions(), (6, 6));
    assert_eq!(big.get_pixel(5, 5), img.get_pixel(2, 1));
    assert_eq!(big.get_pixel(1, 2), img.get_pixel(0, 0));
    let same = new_scaled(&img, 1, 1);
    assert_eq!(same.to_rgba_bytes(), img.to_rgba_bytes());
    let tall = new_scaled_1d_height(&RgbaImage::from_pixel(4, 1, BLACK), 5);
    assert_eq!(tall.dimensions(), (4, 5));
}

// --- Finishing the label ---

#[test]
fn print_width_narrows_and_centres() {
    assert_eq!(image_width(813, 400), 400);
    assert_eq!(image_width(813, 0), 813);
    assert_eq!(image_width(813, 900), 813);
    let canvas = RgbaImage::from_pixel(4, 2, BLACK);
    let out = finish_canvas(canvas, 10, false);
    assert_eq!(out.dimensions(), (10, 2));
    assert_eq!(out.get_pixel(2, 0), WHITE);
    assert_eq!(out.get_pixel(3, 0), BLACK);
    assert_eq!(out.get_pixel(6, 1), BLACK);
    assert_eq!(out.get_pixel(7, 1), WHITE);
}

#[test]
fn inverted_label_is_turned() {
    let img = strip();
    let out = finish_canvas(img.duplicate(), 3, true);
    assert_eq!(out.to_rgba_bytes(), rotate_180(&img).to_rgba_bytes());
    let same = finish_canvas(img.duplicate(), 3, false);
    assert_eq!(same.to_rgba_bytes(), img.to_rgba_bytes());
}

#[test]
fn inverted_narrow_label_keeps_offset() {
    // A 4-pixel image on a 6-pixel label: offset 1, and source x lands on 6 - 1 - x + 1.
    let mut canvas = RgbaImage::from_pixel(4, 1, WHITE);
    canvas.put_pixel(0, 0, BLACK);
    let out = finish_canvas(canvas, 6, true);
    assert_eq!(out.dimensions(), (6, 1));
    assert_eq!(count(&out, BLACK), 0);
    let mut canvas = RgbaImage::from_pixel(4, 1, WHITE);
    canvas.put_pixel(1, 0, BLACK);
    let out = finish_canvas(canvas, 6, true);
    assert_eq!(out.get_pixel(5, 0), BLACK);
    assert_eq!(count(&out, BLACK), 1);
}

// --- Drawing whole labels ---

fn text(reverse: bool) -> LabelElement {
    LabelElement::Text(TextField {
        reverse_print: ReversePrint { value: reverse },
        font: FontInfo::default(),
        position: at(1, 1),
        alignment: FieldAlignment::Left,
        text: "Hi".to_string(),
        block: None,
    })
}

fn draw_all(label: &LabelInfo, width: u32, height: u32) -> (RgbaImage, Vec<usize>) {
    let renderer = Renderer::new();
    let mut drawing = LabelDrawing::new(width, height);
    let mut outside = Vec::new();
    loop {
        assert!(drawing.next_drawable(&renderer, label));
        match drawing.draw_next(&renderer, label).expect("draw") {
            Progress::Drawn => {},
            Progress::Outside => {
                outside.push(drawing.current_index());
                let mut target = drawing.take_target();
                target.put_pixel(0, 0, BLACK);
                drawing.give_back(target);
            },
            Progress::Finished => break,
        }
    }
    (drawing.finish(label, width, false), outside)
}

#[test]
fn empty_label_produces_white_canvas() {
    let label = LabelInfo { print_width: 0, inverted: false, elements: vec![] };
    let (img, outside) = draw_all(&label, 50, 30);
    assert_eq!(img.dimensions(), (50, 30));
    assert_eq!(count(&img, WHITE), 1500);
    assert!(outside.is_empty());
}

#[test]
fn label_elements_drawn_in_order_with_reverse_print() {
    let label = LabelInfo {
        print_width: 0,
        inverted: false,
        elements: vec![
            LabelElement::GraphicBox(boxed(0, 0, 4, 4, 4, false)),
            text(false),
            LabelElement::GraphicBox(boxed(2, 0, 4, 2, 2, true)),
            LabelElement::DiagonalLine(GraphicDiagonalLine {
                reverse_print: ReversePrint { value: true },
                position: at(0, 0),
                width: 3,
                height: 3,
                line_color: LineColor::Black,
                top_to_bottom: true,
            }),
        ],
    };
    let (img, outside) = draw_all(&label, 8, 4);
    assert_eq!(outside, vec![1, 3]);
    // The reversed box turns the black square white where it overlaps and paints black
    // outside it.
    assert_eq!(img.get_pixel(2, 0), WHITE);
    assert_eq!(img.get_pixel(3, 1), WHITE);
    assert_eq!(img.get_pixel(4, 0), BLACK);
    assert_eq!(img.get_pixel(1, 1), BLACK);
    assert_eq!(img.get_pixel(1, 3), BLACK);
    // The reversed outside element painted the layer's corner, which reverses (0, 0).
    assert_eq!(img.get_pixel(0, 0), WHITE);
}

#[test]
fn label_with_barcodes() {
    let renderer = Renderer::new();
    let code = LabelElement::Barcode128(Barcode128WithData {
        reverse_print: ReversePrint { value: false },
        barcode: Barcode128 { orientation: FieldOrientation::Normal, height: 5, line: false, mode: BarcodeMode::Automatic },
        position: at(0, 0),
        width: 1,
        data: "A".to_string(),
    });
    let mut canvas = RgbaImage::from_pixel(80, 10, WHITE);
    assert!(renderer.can_draw(&canvas, &code));
    assert_eq!(renderer.draw_element(&mut canvas, &code), Ok(true));
    assert_eq!(canvas.get_pixel(10, 4), BLACK);
    assert_eq!(canvas.get_pixel(10, 5), WHITE);

    let empty = LabelElement::BarcodeAztec(BarcodeAztecWithData {
        reverse_print: ReversePrint { value: false },
        barcode: BarcodeAztec { orientation: FieldOrientation::Normal, magnification: 2, size: 0 },
        position: at(0, 0),
        data: String::new(),
    });
    assert_eq!(renderer.draw_element(&mut canvas, &empty), Err("Aztec: empty content".to_string()));
    assert_eq!(renderer.draw_element(&mut canvas, &text(false)), Ok(false));
}

#[test]
fn rotated_barcode_is_turned() {
    let renderer = Renderer::new();
    let code = Barcode128WithData {
        reverse_print: ReversePrint { value: false },
        barcode: Barcode128 { orientation: FieldOrientation::Rotated90, height: 5, line: false, mode: BarcodeMode::No },
        position: at(0, 0),
        width: 1,
        data: "A".to_string(),
    };
    let mut canvas = RgbaImage::from_pixel(10, 80, WHITE);
    renderer.draw_barcode_128(&mut canvas, &code).unwrap();
    // Turned a quarter: the first bar (module 10) runs across row 10.
    assert_eq!(canvas.get_pixel(0, 10), BLACK);
    assert_eq!(canvas.get_pixel(4, 10), BLACK);
    assert_eq!(canvas.get_pixel(0, 9), WHITE);
}

#[test]
fn oversized_barcode_is_not_drawable() {
    let renderer = Renderer::new();
    let code = LabelElement::Barcode128(Barcode128WithData {
        reverse_print: ReversePrint { value: false },
        barcode: Barcode128 { orientation: FieldOrientation::Normal, height: i32::MAX, line: false, mode: BarcodeMode::Automatic },
        position: at(0, 0),
        width: i32::MAX,
        data: "A".to_string(),
    });
    let canvas = RgbaImage::from_pixel(8, 8, WHITE);
    assert!(!renderer.can_draw(&canvas, &code));
}

// --- Canvas dimensions ---

fn canvas_for(width_mm: f64, height_mm: f64, dpmm: i32, print_width: i32) -> RgbaImage {
    let label = LabelInfo { print_width, inverted: false, elements: vec![] };
    let label_width = (width_mm * dpmm as f64).ceil() as i32;
    let height = (height_mm * dpmm as f64).ceil() as u32;
    let width = image_width(label_width, print_width) as u32;
    let drawing = LabelDrawing::new(width, height);
    drawing.finish(&label, label_width as u32, false)
}

#[test]
fn empty_label_produces_correct_canvas_dimensions() {
    let img = canvas_for(50.0, 30.0, 8, 0);
    let expected_w = (50.0 * 8.0_f64).ceil() as u32;
    let expected_h = (30.0 * 8.0_f64).ceil() as u32;
    assert_eq!(img.width(), expected_w);
    assert_eq!(img.height(), expected_h);
}

#[test]
fn dpmm_6_scales_canvas() {
    let img = canvas_for(100.0, 150.0, 6, 0);
    assert_eq!(img.width(), 600);
    assert_eq!(img.height(), 900);
}

#[test]
fn print_width_smaller_than_label_width() {
    let label = LabelInfo {
        print_width: 400,
        inverted: false,
        elements: vec![LabelElement::GraphicBox(boxed(10, 10, 380, 50, 3, false))],
    };
    let label_width = (101.625 * 8.0_f64).ceil() as i32;
    let height = (203.25 * 8.0_f64).ceil() as u32;
    let renderer = Renderer::new();
    let mut drawing = LabelDrawing::new(image_width(label_width, label.print_width) as u32, height);
    while drawing.draw_next(&renderer, &label).unwrap() != Progress::Finished {}
    let img = drawing.finish(&label, label_width as u32, false);
    // Image should still be full label width (101.625mm × 8 dpmm = 813px)
    let expected_w = (101.625 * 8.0_f64).ceil() as u32;
    assert_eq!(img.width(), expected_w);
    // The 400-dot image is centred: moved right by (813 - 400) / 2 = 206 dots.
    assert_eq!(img.get_pixel(206 + 10, 10), BLACK);
    assert_eq!(img.get_pixel(10, 10), WHITE);
}

#[test]
fn inverted_box_label_differs_and_is_turned() {
    let make = |inverted: bool| LabelInfo {
        print_width: 0,
        inverted,
        elements: vec![LabelElement::GraphicBox(boxed(0, 0, 2, 1, 1, false))],
    };
    let renderer = Renderer::new();
    let mut results = Vec::new();
    for inverted in [false, true] {
        let label = make(inverted);
        let mut drawing = LabelDrawing::new(5, 3);
        while drawing.draw_next(&renderer, &label).unwrap() != Progress::Finished {}
        results.push(drawing.finish(&label, 5, true));
    }
    assert_ne!(results[0].to_rgba_bytes(), results[1].to_rgba_bytes());
    assert_eq!(results[1].get_pixel(4, 2), BLACK);
    assert_eq!(results[1].get_pixel(3, 2), BLACK);
    assert_eq!(results[1].get_pixel(0, 0), WHITE);
    // Without enabling inverted labels the flag is ignored.
    let label = make(true);
    let mut drawing = LabelDrawing::new(5, 3);
    while drawing.draw_next(&renderer, &label).unwrap() != Progress::Finished {}
    assert_eq!(drawing.finish(&label, 5, false).get_pixel(0, 0), BLACK);
}

#[test]
fn clear_mask_reverses_nothing() {
    let mut background = RgbaImage::from_pixel(2, 2, (10, 20, 30, 255));
    let mask = RgbaImage::from_pixel(2, 2, CLEAR);
    reverse_print(&mask, &mut background);
    assert_eq!(background.to_rgba_bytes(), RgbaImage::from_pixel(2, 2, (10, 20, 30, 255)).to_rgba_bytes());
}

#[test]
fn reversed_element_twice_restores_canvas() {
    let reversed = LabelElement::GraphicBox(boxed(1, 1, 3, 2, 1, true));
    let label = LabelInfo {
        print_width: 0,
        inverted: false,
        elements: vec![LabelElement::GraphicBox(boxed(0, 0, 2, 2, 2, false)), reversed.clone(), reversed],
    };
    let renderer = Renderer::new();
    let mut drawing = LabelDrawing::new(6, 4);
    assert_eq!(drawing.draw_next(&renderer, &label), Ok(Progress::Drawn));
    let once = drawing.finish(&label, 6, false);
    let mut drawing = LabelDrawing::new(6, 4);
    while drawing.draw_next(&renderer, &label).unwrap() != Progress::Finished {}
    let thrice = drawing.finish(&label, 6, false);
    assert_eq!(thrice.to_rgba_bytes(), once.to_rgba_bytes());
}

#[test]
fn far_out_circle_is_left_to_the_caller() {
    let renderer = Renderer::new();
    let gc = GraphicCircle {
        reverse_print: ReversePrint { value: false },
        position: at(5_000_000, 0),
        circle_diameter: 10,
        border_thickness: 1,
        line_color: LineColor::Black,
    };
    let mut canvas = RgbaImage::from_pixel(4, 4, WHITE);
    let element = LabelElement::GraphicCircle(gc);
    assert!(renderer.can_draw(&canvas, &element));
    assert_eq!(renderer.draw_element(&mut canvas, &element), Ok(false));
    assert_eq!(count(&canvas, WHITE), 16);
}

#[test]
fn circle_outline_follows_midpoint_steps() {
    // Radius 2 round (3, 3): octant points (0, 2) and (1, 2), reflected eight ways.
    let mut canvas = RgbaImage::from_pixel(7, 7, WHITE);
    let gc = GraphicCircle {
        reverse_print: ReversePrint { value: false },
        position: at(1, 1),
        circle_diameter: 4,
        border_thickness: 1,
        line_color: LineColor::Black,
    };
    draw_graphic_circle(&mut canvas, &gc);
    for (x, y) in [(3, 1), (3, 5), (1, 3), (5, 3), (4, 1), (2, 1), (5, 2), (1, 4)] {
        assert_eq!(canvas.get_pixel(x, y), BLACK);
    }
    assert_eq!(count(&canvas, BLACK), 12);
    assert_eq!(canvas.get_pixel(3, 3), WHITE);
}
