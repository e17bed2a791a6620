use labelize::barcodes::{aztec, code128, datamatrix, pdf417, qrcode};

const BLACK: (u8, u8, u8, u8) = (0, 0, 0, 255);
const WHITE: (u8, u8, u8, u8) = (255, 255, 255, 255);

// --- Code128 ---

#[test]
fn code128_encodes_ascii() {
    let img = code128::encode_auto("Hello123", 100, 2).expect("encode_auto failed");
    assert!(img.width() > 0);
    assert!(img.height() > 0);
}

#[test]
fn code128_encodes_digits_only() {
    let img = code128::encode_auto("1234567890", 80, 2).expect("encode_auto failed");
    assert!(img.width() > 0);
}

#[test]
fn code128_empty_input_handled() {
    // Empty input may succeed with a minimal barcode or error - either is acceptable
    let _result = code128::encode_auto("", 100, 2);
}

// --- PDF417 ---

#[test]
fn pdf417_encodes_text() {
    let img = pdf417::encode("Hello World", 4, 0, 0, false).expect("pdf417 failed");
    assert!(img.width() > 0);
    assert!(img.height() > 0);
}

#[test]
fn pdf417_empty_input_returns_error() {
    let result = pdf417::encode("", 4, 0, 0, false);
    assert!(result.is_err(), "expected error for empty input");
}

// --- Aztec ---

#[test]
fn aztec_encodes_text() {
    let img = aztec::encode("Hello", 4, 0).expect("aztec failed");
    assert!(img.width() > 0);
    assert!(img.height() > 0);
    // Aztec codes should be square
    assert_eq!(img.width(), img.height(), "Aztec code should be square");
}

#[test]
fn aztec_empty_input_returns_error() {
    let result = aztec::encode("", 4, 0);
    assert!(result.is_err(), "expected error for empty input");
}

// --- DataMatrix ---

#[test]
fn datamatrix_encodes_text() {
    let img = datamatrix::encode("Hello", 4).expect("datamatrix failed");
    assert!(img.width() > 0);
    assert!(img.height() > 0);
}

#[test]
fn datamatrix_empty_input_returns_error() {
    let result = datamatrix::encode("", 4);
    assert!(result.is_err(), "expected error for empty input");
}

// --- QR code ---

#[test]
fn qrcode_encodes_text() {
    let img = qrcode::encode("Hello World", 5).expect("qrcode failed");
    assert!(img.width() > 0);
    assert!(img.height() > 0);
    // QR codes should be square
    assert_eq!(img.width(), img.height(), "QR code should be square");
}

#[test]
fn qrcode_empty_input_returns_error() {
    let result = qrcode::encode("", 5);
    assert!(result.is_err(), "expected error for empty input");
}

// --- Multiple barcode widths ---

#[test]
fn code128_wider_bar_produces_wider_image() {
    let narrow = code128::encode_auto("TEST", 100, 1).expect("narrow");
    let wide = code128::encode_auto("TEST", 100, 3).expect("wide");
    assert!(wide.width() > narrow.width(), "wider bar width should produce wider image");
}

#[test]
fn code128_taller_height_produces_taller_image() {
    let short = code128::encode_auto("TEST", 50, 2).expect("short");
    let tall = code128::encode_auto("TEST", 200, 2).expect("tall");
    assert!(tall.height() > short.height(), "taller height should produce taller image");
}

// --- Exact sizes and modules ---

#[test]
fn code128_picture_is_modules_times_bar_width() {
    // Quiet zone, start code, eight characters, check character, stop pattern, quiet zone:
    // 10 + 11 * 10 + 13 + 10 modules.
    let img = code128::encode_auto("Hello123", 100, 2).unwrap();
    assert_eq!(img.width(), 143 * 2);
    assert_eq!(img.height(), 100);
    assert_eq!(code128::auto_size("Hello123", 100, 2), Some((286, 100)));
}

#[test]
fn code128_quiet_zone_and_start_bar() {
    let img = code128::encode_auto("A", 3, 1).unwrap();
    for x in 0..10 {
        assert_eq!(img.get_pixel(x, 0), WHITE);
    }
    // Start code B opens with a bar two modules wide, then one space module.
    assert_eq!(img.get_pixel(10, 0), BLACK);
    assert_eq!(img.get_pixel(11, 2), BLACK);
    assert_eq!(img.get_pixel(12, 1), WHITE);
    let w = img.width();
    assert_eq!(img.get_pixel(w - 1, 0), WHITE);
}

#[test]
fn code128_non_positive_sizes_become_one() {
    let img = code128::encode_auto("A", 0, -3).unwrap();
    assert_eq!(img.height(), 1);
    assert_eq!(img.width(), 10 + 11 * 3 + 13 + 10);
}

#[test]
fn code128_auto_codes_and_checksum() {
    let codes = code128::auto_codes_of("A\u{00F1}~");
    assert_eq!(codes, vec![104, 33, 102, 94]);
    // 104 + 33 * 1 + 102 * 2 + 94 * 3
    assert_eq!(code128::weighted_sum_within_u32(&codes), Some(623));
}

#[test]
fn code128_checksum_overflow_is_detected() {
    let codes = vec![104u8; 20_000];
    assert_eq!(code128::weighted_sum_within_u32(&codes), None);
}

#[test]
fn code128_no_mode_subsets() {
    let (codes, text) = code128::no_mode_parts(">:1234>;A>8B");
    assert_eq!(codes, vec![105, 12, 34, 33, 102, 34]);
    assert_eq!(text, vec!['1', '2', '3', '4', 'A', 'B']);
}

#[test]
fn code128_no_mode_code_set_a_controls() {
    let (codes, text) = code128::no_mode_parts(">9A\u{0001}");
    assert_eq!(codes, vec![103, 33, 65]);
    assert_eq!(text, vec!['A', '\u{0001}']);
}

#[test]
fn code128_no_mode_returns_text() {
    let (img, text) = code128::encode_no_mode(">:1234", 10, 1).unwrap();
    assert_eq!(text, "1234");
    // Start code C, two codes, check character, stop pattern and quiet zones.
    assert_eq!(img.width(), 10 + 11 * 4 + 13 + 10);
    assert_eq!(code128::no_mode_size(">:1234", 10, 1), Some((img.width(), 10)));
}

#[test]
fn code128_pattern_of_stop_only() {
    let modules = code128::encode_pattern(&[106]);
    let expected: Vec<bool> = [false; 10]
        .iter()
        .copied()
        .chain([true, true, false, false, false, true, true, true, false, true, false, true, true])
        .chain([false; 10])
        .collect();
    assert_eq!(modules, expected);
}

#[test]
fn aztec_picture_size_for_short_text() {
    // Five bytes need two layers: a 17-module symbol, two quiet modules a side, 4 pixels each.
    let img = aztec::encode("Hello", 4, 0).unwrap();
    assert_eq!(img.width(), 84);
    assert_eq!(aztec::picture_side("Hello", 4), Some(84));
    assert_eq!(aztec::layer_count_exec(5), 2);
    assert_eq!(aztec::layer_count_exec(200), 10);
}

#[test]
fn aztec_bullseye_centre_and_first_ring_are_dark() {
    let img = aztec::encode("Hello", 1, 0).unwrap();
    // The symbol starts after two quiet modules; its centre is module 8 of 17.
    let c = 2 + 8;
    assert_eq!(img.get_pixel(c, c), BLACK);
    assert_eq!(img.get_pixel(c + 1, c), BLACK);
    assert_eq!(img.get_pixel(c + 2, c), WHITE);
    assert_eq!(img.get_pixel(0, 0), WHITE);
}

#[test]
fn aztec_error_message() {
    assert_eq!(aztec::encode("", 2, 0).unwrap_err(), "Aztec: empty content");
}

#[test]
fn datamatrix_picture_size_for_short_text() {
    let img = datamatrix::encode("Hello", 4).unwrap();
    assert_eq!(img.width(), (12 + 4) * 4);
    assert_eq!(img.height(), img.width());
    assert_eq!(datamatrix::picture_side("Hello", 4), Some(64));
    assert_eq!(datamatrix::symbol_side_exec(101), 12);
    assert_eq!(datamatrix::symbol_side_exec(1000), 32);
}

#[test]
fn datamatrix_finder_edges() {
    let img = datamatrix::encode("Hi", 1).unwrap();
    // Ten modules a side: solid left column and bottom row, alternating top row.
    assert_eq!(img.get_pixel(2, 2), BLACK);
    assert_eq!(img.get_pixel(3, 2), WHITE);
    assert_eq!(img.get_pixel(2, 7), BLACK);
    assert_eq!(img.get_pixel(7, 11), BLACK);
    assert_eq!(datamatrix::encode("", 1).unwrap_err(), "DataMatrix: empty content");
}

#[test]
fn qrcode_picture_size_for_short_text() {
    let img = qrcode::encode("Hello World", 5).unwrap();
    assert_eq!(img.width(), (21 + 8) * 5);
    assert_eq!(qrcode::picture_side("Hello World", 5), Some(145));
    assert_eq!(qrcode::compute_side_length(100), 33);
    assert_eq!(qrcode::encode("", 5).unwrap_err(), "QR code: empty content");
}

#[test]
fn qrcode_finder_pattern_corner() {
    let img = qrcode::encode("A", 1).unwrap();
    // Four quiet modules, then the finder pattern's dark outer ring.
    assert_eq!(img.get_pixel(3, 3), WHITE);
    assert_eq!(img.get_pixel(4, 4), BLACK);
    assert_eq!(img.get_pixel(5, 5), WHITE);
    assert_eq!(img.get_pixel(6, 6), BLACK);
}

#[test]
fn pdf417_picture_size() {
    // One column by default and eleven rows for eleven bytes, four pixels each.
    let img = pdf417::encode("Hello World", 4, 0, 0, false).unwrap();
    assert_eq!(img.width(), 17 + 17 + 18 + 34 + 20);
    assert_eq!(img.height(), 11 * 4 + 20);
    assert_eq!(pdf417::symbol_size(11, 4, 0, 0), Some((106, 64)));
    assert_eq!(pdf417::symbol_size(2, 4, 2, 0), Some((123, 32)));
    assert_eq!(pdf417::encode("", 4, 0, 0, false).unwrap_err(), "PDF417: empty content");
}

#[test]
fn pdf417_start_pattern() {
    let img = pdf417::encode("x", 1, 1, 1, true).unwrap();
    for m in 0..8 {
        assert_eq!(img.get_pixel(10 + m, 10), BLACK);
    }
    assert_eq!(img.get_pixel(18, 10), WHITE);
    assert_eq!(img.get_pixel(19, 10), BLACK);
    assert_eq!(img.get_pixel(10, 9), WHITE);
}

#[test]
fn grid_picture_side_limits() {
    assert_eq!(labelize::barcodes::grid_picture_side(10, 2, 3), Some(42));
    assert_eq!(labelize::barcodes::grid_picture_side(10, 2, u32::MAX), None);
}

#[test]
fn bytes_to_bits_msb_first() {
    let bits = labelize::barcodes::bytes_to_bits(&[0b1010_0001]);
    assert_eq!(bits, vec![true, false, true, false, false, false, false, true]);
}
