use vstd::prelude::*;
use vstd::arithmetic::div_mod::lemma_fundamental_div_mod_converse;

use crate::images::{allocatable, image_contents, image_size, pixel_at, Pixel, RgbaImage, COLOR_BLACK, COLOR_WHITE};
use vstd::string::StringSliceAdditionalSpecFns;

verus! {

broadcast use vstd::string::group_string_axioms;

/// White modules on each side of the symbol.
pub const QUIET_ZONE: usize = 10;

/// The number of data columns actually used: at least one.
pub open spec fn column_total(column_count: i32) -> int {
    if column_count < 1 {
        1
    } else {
        column_count as int
    }
}

/// The number of rows: `row_count` when positive, otherwise enough rows for the content,
/// at least three.
pub open spec fn row_total(len: int, cols: int, row_count: i32) -> int {
    if row_count > 0 {
        row_count as int
    } else {
        let needed = (len + cols - 1) / cols;
        if needed < 3 {
            3
        } else {
            needed
        }
    }
}

/// The pixel height of each row: at least one.
pub open spec fn row_height_of(height: i32) -> int {
    if height < 1 {
        1
    } else {
        height as int
    }
}

/// The number of modules across a row with `cols` data columns: start pattern, left row
/// indicator, the data columns, right row indicator (17 modules each) and an 18-module
/// stop pattern.
pub open spec fn row_modules(cols: int) -> int {
    17 * cols + 17 + 18 + 17 * 2
}

/// Module `m` of the start pattern.
pub open spec fn start_module(m: int) -> bool {
    m < 8 || (m <= 13 && m % 2 == 1)
}

/// Module `m` of the stop pattern.
pub open spec fn stop_module(m: int) -> bool {
    m < 7 || m == 8 || m == 12 || m == 14 || m == 17
}

/// Module `m` of data row `row`: start pattern, left row indicator, each data column with
/// the low eight bits of its byte (0x90 past the end of the content) followed by a filler,
/// right row indicator and stop pattern.
pub open spec fn row_module(bytes: Seq<u8>, cols: int, row: int, m: int) -> bool {
    if m < 17 {
        start_module(m)
    } else if m < 34 {
        ((m - 17) as u64 + row as u64) % 4 < 2
    } else if m < 34 + 17 * cols {
        let col = (m - 34) / 17;
        let i = (m - 34) % 17;
        let idx = row * cols + col;
        let byte_val: u8 = if idx < bytes.len() {
            bytes[idx]
        } else {
            0x90u8
        };
        if i < 8 {
            (byte_val >> (i as u32)) & 1 == 1
        } else {
            (i + row) % 3 == 0
        }
    } else if m < 51 + 17 * cols {
        ((m - (34 + 17 * cols)) as u64 + row as u64 + 1) % 4 < 2
    } else {
        stop_module(m - (51 + 17 * cols))
    }
}

/// Pixel `(x, y)` of the symbol: inside the quiet zone each row of modules is `row_height`
/// pixels high and one pixel per module wide.
pub open spec fn symbol_pixel(bytes: Seq<u8>, cols: int, rows: int, row_height: int, x: int, y: int) -> Pixel {
    if 10 <= y < 10 + rows * row_height && 10 <= x < 10 + row_modules(cols) && row_module(
        bytes,
        cols,
        (y - 10) / row_height,
        x - 10,
    ) {
        COLOR_BLACK
    } else {
        COLOR_WHITE
    }
}

/// The symbol's width and height in pixels.
pub open spec fn symbol_width(cols: int) -> int {
    row_modules(cols) + 20
}

pub open spec fn symbol_height(rows: int, row_height: int) -> int {
    rows * row_height + 20
}

fn module_on(bytes: &[u8], cols: usize, rows: usize, row: usize, m: usize) -> (on: bool)
    requires
        row < rows,
        rows * cols <= usize::MAX,
        m < row_modules(cols as int),
        row_modules(cols as int) <= u32::MAX,
        rows <= u32::MAX,
        cols >= 1,
    ensures
        on == row_module(bytes@, cols as int, row as int, m as int),
{
    if m < 17 {
        let start_pattern: [u8; 17] = [1, 1, 1, 1, 1, 1, 1, 1, 0, 1, 0, 1, 0, 1, 0, 0, 0];
        assert(start_pattern@ =~= seq![1u8, 1, 1, 1, 1, 1, 1, 1, 0, 1, 0, 1, 0, 1, 0, 0, 0]);
        start_pattern[m] == 1
    } else if m < 34 {
        ((m - 17) as u64 + row as u64) % 4 < 2
    } else if m < 34 + 17 * cols {
        let col = (m - 34) / 17;
        let i = ((m - 34) % 17) as u32;
        proof {
            assert(row * cols + col < rows * cols) by (nonlinear_arith)
                requires row < rows, col < cols;
        }
        let byte_idx = row * cols + col;
        let byte_val: u8 = if byte_idx < bytes.len() {
            bytes[byte_idx]
        } else {
            0x90
        };
        let bit = (byte_val >> (i % 8)) & 1;
        if i < 8 {
            assert(i % 8 == i);
            bit == 1
        } else {
            (i as u64 + row as u64) % 3 == 0
        }
    } else if m < 51 + 17 * cols {
        ((m - (34 + 17 * cols)) as u64 + row as u64 + 1) % 4 < 2
    } else {
        let stop_pattern: [u8; 18] = [1, 1, 1, 1, 1, 1, 1, 0, 1, 0, 0, 0, 1, 0, 1, 0, 0, 1];
        assert(stop_pattern@ =~= seq![1u8, 1, 1, 1, 1, 1, 1, 0, 1, 0, 0, 0, 1, 0, 1, 0, 0, 1]);
        stop_pattern[m - (51 + 17 * cols)] == 1
    }
}

/// The size limits of the symbol: the row arithmetic and the image fit in machine words
/// and memory.
pub open spec fn symbol_fits(len: int, height: i32, column_count: i32, row_count: i32) -> bool {
    let cols = column_total(column_count);
    let rows = row_total(len, cols, row_count);
    let rh = row_height_of(height);
    &&& len + cols <= usize::MAX
    &&& rows * cols <= usize::MAX
    &&& symbol_width(cols) <= u32::MAX
    &&& symbol_height(rows, rh) <= u32::MAX
    &&& allocatable(symbol_width(cols) as u32, symbol_height(rows, rh) as u32)
}

/// `img` is the PDF417 picture of `bytes` with rows `height` pixels high, `column_count`
/// data columns and `row_count` rows (see `column_total`, `row_total`, `row_height_of`).
pub open spec fn draws_symbol(img: RgbaImage, bytes: Seq<u8>, height: i32, column_count: i32, row_count: i32) -> bool {
    let cols = column_total(column_count);
    let rows = row_total(bytes.len() as int, cols, row_count);
    let rh = row_height_of(height);
    &&& image_size(img) == (symbol_width(cols) as u32, symbol_height(rows, rh) as u32)
    &&& forall|x: u32, y: u32|
        x < symbol_width(cols) && y < symbol_height(rows, rh) ==> #[trigger] pixel_at(img, x, y) == symbol_pixel(
            bytes,
            cols,
            rows,
            rh,
            x as int,
            y as int,
        )
}

/// The width and height in pixels of the PDF417 picture of non-empty content of `len`
/// bytes (see `encode`), `None` when `encode` cannot take it.
pub fn symbol_size(len: usize, height: i32, column_count: i32, row_count: i32) -> (size: Option<(u32, u32)>)
    ensures
        size is Some <==> symbol_fits(len as int, height, column_count, row_count),
        size matches Some((w, h)) ==> {
            let cols = column_total(column_count);
            &&& w == symbol_width(cols)
            &&& h == symbol_height(row_total(len as int, cols, row_count), row_height_of(height))
        },
{
    let cols: u128 = if column_count < 1 {
        1
    } else {
        column_count as u128
    };
    if len as u128 + cols > usize::MAX as u128 {
        return None;
    }
    let rows: u128 = if row_count > 0 {
        row_count as u128
    } else {
        let needed = (len as u128 + cols - 1) / cols;
        if needed < 3 {
            3
        } else {
            needed
        }
    };
    proof {
        assert(rows <= 0xffff_ffff_ffff_ffff) by {
            if row_count <= 0 {
                vstd::arithmetic::div_mod::lemma_div_is_ordered_by_denominator((len + cols - 1) as int, 1, cols as int);
            }
        }
        assert(rows * cols <= 0xffff_ffff_ffff_ffff * 0x7fff_ffff) by (nonlinear_arith)
            requires rows <= 0xffff_ffff_ffff_ffff, cols <= 0x7fff_ffff;
    }
    if rows * cols > usize::MAX as u128 {
        return None;
    }
    let rh: u128 = if height < 1 {
        1
    } else {
        height as u128
    };
    let w: u128 = 17 * cols + 17 + 18 + 17 * 2 + 20;
    proof {
        assert(rows * rh <= 0xffff_ffff_ffff_ffff * 0x7fff_ffff) by (nonlinear_arith)
            requires rows <= 0xffff_ffff_ffff_ffff, rh <= 0x7fff_ffff;
    }
    let h: u128 = rows * rh + 20;
    if w > 0xffff_ffff || h > 0xffff_ffff {
        return None;
    }
    assert(w * h * 4 <= 0xffff_ffff * 0xffff_ffff * 4) by (nonlinear_arith)
        requires w <= 0xffff_ffff, h <= 0xffff_ffff;
    if w * h * 4 > isize::MAX as u128 {
        return None;
    }
    Some((w as u32, h as u32))
}

/// Draws a PDF417 style symbol for `content`: every row has a start pattern, row indicators,
/// `column_count` data columns of one byte each and a stop pattern, and is `height` pixels
/// high; empty content is refused. `truncated` is accepted and not used.
pub fn encode(content: &str, height: i32, column_count: i32, row_count: i32, truncated: bool) -> (res: Result<RgbaImage, String>)
    requires
        content@.len() > 0 ==> symbol_fits(content.spec_bytes().len() as int, height, column_count, row_count),
    ensures
        res is Err <==> content@.len() == 0,
        res matches Err(e) ==> e@ == "PDF417: empty content"@,
        res matches Ok(img) ==> draws_symbol(img, content.spec_bytes(), height, column_count, row_count),
{
    if content.is_empty() {
        return Err("PDF417: empty content".to_string());
    }
    let data_bytes = content.as_bytes();
    let ghost bytes = data_bytes@;
    let cols: usize = if column_count < 1 {
        1
    } else {
        column_count as usize
    };
    let rows: usize = if row_count > 0 {
        row_count as usize
    } else {
        let needed = (data_bytes.len() + cols - 1) / cols;
        if needed < 3 {
            3
        } else {
            needed
        }
    };
    let row_height: u32 = if height < 1 {
        1
    } else {
        height as u32
    };
    let ghost rh = row_height as int;
    let module_width = 17 * cols + 17 + 18 + 17 * 2;
    let total_width = (module_width + QUIET_ZONE * 2) as u32;
    proof {
        assert(rows <= rows * rh) by (nonlinear_arith) requires rh >= 1, rows >= 0;
    }
    let total_height = rows as u32 * row_height + QUIET_ZONE as u32 * 2;
    let mut img = RgbaImage::from_pixel(total_width, total_height, COLOR_WHITE);
    proof {
        assert(rows * rh <= rows * rh + 20);
    }

    let mut row: usize = 0;
    let mut y: u32 = 10;
    while row < rows
        invariant
            row <= rows,
            cols >= 1,
            rows * cols <= usize::MAX,
            rows <= u32::MAX,
            row_modules(cols as int) <= u32::MAX,
            rh == row_height,
            rh >= 1,
            cols == column_total(column_count),
            rows == row_total(bytes.len() as int, cols as int, row_count),
            rh == row_height_of(height),
            bytes == data_bytes@,
            module_width == row_modules(cols as int),
            total_width == symbol_width(cols as int),
            total_height == symbol_height(rows as int, rh),
            image_size(img) == (total_width, total_height),
            y == 10 + row * rh,
            forall|px: u32, py: u32|
                px < total_width && py < total_height ==> #[trigger] pixel_at(img, px, py) == if py < y {
                    symbol_pixel(bytes, cols as int, rows as int, rh, px as int, py as int)
                } else {
                    COLOR_WHITE
                },
        decreases rows - row,
    {
        let mut dy: u32 = 0;
        while dy < row_height
            invariant
                row < rows,
                dy <= row_height,
                cols >= 1,
                rows * cols <= usize::MAX,
                rows <= u32::MAX,
                row_modules(cols as int) <= u32::MAX,
                rh == row_height,
                rh >= 1,
                bytes == data_bytes@,
                module_width == row_modules(cols as int),
                total_width == symbol_width(cols as int),
                total_height == symbol_height(rows as int, rh),
                image_size(img) == (total_width, total_height),
                y == 10 + row * rh + dy,
                forall|px: u32, py: u32|
                    px < total_width && py < total_height ==> #[trigger] pixel_at(img, px, py) == if py < y {
                        symbol_pixel(bytes, cols as int, rows as int, rh, px as int, py as int)
                    } else {
                        COLOR_WHITE
                    },
            decreases row_height - dy,
        {
            proof {
                assert(row * rh + dy < rows * rh) by (nonlinear_arith)
                    requires row < rows, dy < rh;
                lemma_fundamental_div_mod_converse((y - 10) as int, rh, row as int, dy as int);
            }
            let mut m: usize = 0;
            while m < module_width
                invariant
                    row < rows,
                    dy < row_height,
                    m <= module_width,
                    cols >= 1,
                    rows * cols <= usize::MAX,
                    rows <= u32::MAX,
                    row_modules(cols as int) <= u32::MAX,
                    rh == row_height,
                    rh >= 1,
                    bytes == data_bytes@,
                    module_width == row_modules(cols as int),
                    total_width == symbol_width(cols as int),
                    total_height == symbol_height(rows as int, rh),
                    image_size(img) == (total_width, total_height),
                    y == 10 + row * rh + dy,
                    10 <= y < 10 + rows * rh,
                    (y - 10) / rh == row,
                    forall|px: u32, py: u32|
                        px < total_width && py < total_height ==> #[trigger] pixel_at(img, px, py) == if py < y || (py
                            == y && px < 10 + m) {
                            symbol_pixel(bytes, cols as int, rows as int, rh, px as int, py as int)
                        } else {
                            COLOR_WHITE
                        },
                decreases module_width - m,
            {
                if module_on(data_bytes, cols, rows, row, m) {
                    let ghost prev = img;
                    img.put_pixel(10 + m as u32, y, COLOR_BLACK);
                    assert forall|px: u32, py: u32| px < total_width && py < total_height && (px, py) != ((10 + m) as u32, y)
                        implies #[trigger] pixel_at(img, px, py) == pixel_at(prev, px, py) by {
                        assert(image_contents(img)[(px, py)] == image_contents(prev)[(px, py)]);
                    }
                }
                m = m + 1;
            }
            y = y + 1;
            dy = dy + 1;
        }
        proof {
            assert(row * rh + rh == (row + 1) * rh) by (nonlinear_arith);
        }
        row = row + 1;
    }
    Ok(img)
}

} // verus!
