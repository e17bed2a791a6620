use labelize::elements::field_block::FieldBlock;
use labelize::elements::field_orientation::FieldOrientation;
use labelize::elements::font::{bitmap_font_sizes, FontInfo};
use labelize::elements::label_element::LabelElement;
use labelize::elements::graphic_box::GraphicBox;
use labelize::elements::label_position::LabelPosition;
use labelize::elements::line_color::LineColor;
use labelize::elements::reverse_print::ReversePrint;
use labelize::elements::text_alignment::TextAlignment;
use labelize::images::RgbaImage;
use labelize::LabelizeError;

fn font(name: &str, width: i64, height: i64) -> FontInfo {
    FontInfo { name: name.to_string(), width, height, orientation: FieldOrientation::Normal }
}

#[test]
fn bitmap_font_takes_native_size_when_unsized() {
    let f = font("A", 0, 0).with_adjusted_sizes();
    assert_eq!((f.width, f.height), (5, 9));
    let f = font("GS", 0, 0).with_adjusted_sizes();
    assert_eq!((f.width, f.height), (24, 24));
}

#[test]
fn bitmap_font_sizes_are_whole_multiples() {
    // Height 20 on font B (11 high): two steps; width follows from the height: 2 * 7.
    let f = font("B", 0, 20).with_adjusted_sizes();
    assert_eq!((f.width, f.height), (14, 22));
    // Width 16 on font A (5 wide) rounds to three steps; height 4 rounds up to one step.
    let f = font("A", 16, 4).with_adjusted_sizes();
    assert_eq!((f.width, f.height), (15, 9));
    // Halves round away from zero: 25 / 10 gives three steps.
    let f = font("C", 25, 0).with_adjusted_sizes();
    assert_eq!((f.width, f.height), (30, 54));
}

#[test]
fn scalable_font_sizes() {
    let f = font("0", 0, 30).with_adjusted_sizes();
    assert_eq!((f.width, f.height), (30, 30));
    let f = font("0", 4, 0).with_adjusted_sizes();
    assert_eq!((f.width, f.height), (10, 10));
    assert_eq!(f.name, "0");
}

#[test]
fn adjusted_sizes_are_stable() {
    for (name, w, h) in [("A", 16, 4), ("B", 0, 20), ("0", 3, 50), ("E", -7, 100), ("Z", 0, 0)] {
        let once = font(name, w, h).with_adjusted_sizes();
        let twice = once.with_adjusted_sizes();
        assert_eq!((twice.width, twice.height), (once.width, once.height));
    }
}

#[test]
fn standard_fonts() {
    assert!(font("0", 0, 0).is_standard_font());
    assert!(font("H", 0, 0).is_standard_font());
    assert!(font("GS", 0, 0).is_standard_font());
    assert!(!font("Z", 0, 0).is_standard_font());
    assert_eq!(bitmap_font_sizes("G"), Some((60, 40)));
    assert_eq!(bitmap_font_sizes("AB"), None);
    assert_eq!(font("A", 3, 12).get_size(), 12);
    let d = FontInfo::default();
    assert_eq!((d.name.as_str(), d.width, d.height), ("A", 0, 0));
}

#[test]
fn positions_add_offsets() {
    let p = LabelPosition { x: 10, y: 20, calculate_from_bottom: true, automatic_position: false };
    let q = LabelPosition { x: -3, y: 5, calculate_from_bottom: false, automatic_position: true };
    let r = p.add(&q);
    assert_eq!((r.x, r.y, r.calculate_from_bottom, r.automatic_position), (7, 25, true, false));
    let o = LabelPosition::default();
    assert_eq!((o.x, o.y, o.calculate_from_bottom), (0, 0, false));
}

#[test]
fn defaults() {
    let b = FieldBlock::default();
    assert_eq!((b.max_width, b.max_lines, b.line_spacing, b.hanging_indent), (0, 1, 0, 0));
    assert_eq!(b.alignment, TextAlignment::Left);
    assert_eq!(LineColor::default(), LineColor::Black);
    assert!(!ReversePrint::default().is_reverse_print());
}

#[test]
fn element_reverse_flag() {
    let gb = GraphicBox {
        reverse_print: ReversePrint { value: true },
        position: LabelPosition::default(),
        width: 1,
        height: 1,
        border_thickness: 1,
        corner_rounding: 0,
        line_color: LineColor::Black,
    };
    assert!(LabelElement::GraphicBox(gb).is_reverse_print());
}

#[test]
fn error_messages() {
    assert_eq!(LabelizeError::Parse("bad".to_string()).message(), "Parse error: bad");
    assert_eq!(LabelizeError::Render("x".to_string()).message(), "Render error: x");
    assert_eq!(LabelizeError::Encode("y".to_string()).message(), "Encode error: y");
    assert_eq!(LabelizeError::Other("z".to_string()).message(), "z");
    let io = std::io::Error::new(std::io::ErrorKind::Other, "disk full");
    assert_eq!(LabelizeError::Io(io).message(), "IO error: disk full");
}

#[test]
fn image_bytes_round_trip() {
    let mut img = RgbaImage::from_pixel(2, 1, (1, 2, 3, 4));
    img.put_pixel(1, 0, (5, 6, 7, 8));
    let bytes = img.to_rgba_bytes();
    assert_eq!(bytes, vec![1, 2, 3, 4, 5, 6, 7, 8]);
    let back = RgbaImage::from_rgba_bytes(2, 1, bytes).unwrap();
    assert_eq!(back.get_pixel(1, 0), (5, 6, 7, 8));
    assert!(RgbaImage::from_rgba_bytes(2, 2, vec![0; 8]).is_none());
    let mut filled = back.duplicate();
    filled.fill((9, 9, 9, 9));
    assert_eq!(filled.to_rgba_bytes(), vec![9; 8]);
    assert_eq!(back.get_pixel(0, 0), (1, 2, 3, 4));
}

#[test]
fn overlay_blends_half_transparent_pixels() {
    let mut base = RgbaImage::from_pixel(2, 1, (255, 255, 255, 255));
    let mut top = RgbaImage::from_pixel(1, 1, (0, 0, 0, 255));
    base.overlay(&top, 1, 0);
    assert_eq!(base.get_pixel(1, 0), (0, 0, 0, 255));
    assert_eq!(base.get_pixel(0, 0), (255, 255, 255, 255));
    top.put_pixel(0, 0, (0, 0, 0, 0));
    base.overlay(&top, 0, 0);
    assert_eq!(base.get_pixel(0, 0), (255, 255, 255, 255));
}

#[test]
fn orientation_degrees() {
    assert_eq!(FieldOrientation::Normal.get_degrees(), 0);
    assert_eq!(FieldOrientation::Rotated90.get_degrees(), 90);
    assert_eq!(FieldOrientation::Rotated180.get_degrees(), 180);
    assert_eq!(FieldOrientation::Rotated270.get_degrees(), 270);
}

#[test]
fn width_to_height_ratios() {
    assert_eq!(font("0", 0, 0).get_width_to_height_ratio(), 1);
    assert_eq!(font("GS", 0, 0).get_width_to_height_ratio(), 1);
    assert_eq!(font("A", 0, 0).get_width_to_height_ratio(), 2);
    assert_eq!(font("G", 0, 0).get_width_to_height_ratio(), 2);
}

#[test]
fn large_bitmap_sizes_stay_multiples() {
    let f = font("A", 1 << 60, 0).with_adjusted_sizes();
    assert_eq!(f.width % 5, 0);
    assert_eq!(f.height % 9, 0);
    let again = f.with_adjusted_sizes();
    assert_eq!((again.width, again.height), (f.width, f.height));
}
