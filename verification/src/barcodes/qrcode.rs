use vstd::prelude::*;

use super::{bits_of, bytes_to_bits, draws_grid, grid_drawable, grid_image_side, grid_picture_side, lemma_drawable_grid_small, new_grid, render_module_grid, set_module, square_grid};
use crate::images::{pixel_at, RgbaImage, COLOR_BLACK, COLOR_WHITE};
use vstd::string::StringSliceAdditionalSpecFns;

verus! {

broadcast use vstd::string::group_string_axioms;

/// The smallest symbol side of at least `side`, stepping by four up to 177, whose area
/// reaches `needed` modules; 177 when none does.
pub open spec fn side_from(side: int, needed: int) -> int
    decreases 181 - side,
{
    if side * side >= needed || side >= 177 {
        side
    } else {
        side_from(side + 4, needed)
    }
}

/// The side of the symbol for `data_len` bytes: the smallest of 21, 25, ..., 177 whose
/// area reaches `data_len * 8 + 200` modules, or 177.
pub open spec fn symbol_side(data_len: int) -> int {
    side_from(21, data_len * 8 + 200)
}

proof fn lemma_side_from_bounds(side: int, needed: int)
    requires
        21 <= side <= 177,
        side % 4 == 1,
    ensures
        21 <= side_from(side, needed) <= 177,
        side_from(side, needed) % 4 == 1,
    decreases 177 - side,
{
    if !(side * side >= needed || side >= 177) {
        lemma_side_from_bounds(side + 4, needed);
    }
}

/// The number of modules on each edge of the symbol for `data_len` bytes.
pub fn compute_side_length(data_len: usize) -> (side: usize)
    requires
        data_len * 8 + 200 <= usize::MAX,
    ensures
        side == symbol_side(data_len as int),
        21 <= side <= 177,
        side % 4 == 1,
{
    let needed_modules = data_len * 8 + 200;
    let mut side: usize = 21;
    while side * side < needed_modules && side < 177
        invariant
            21 <= side <= 177,
            side % 4 == 1,
            needed_modules == data_len * 8 + 200,
            side_from(side as int, needed_modules as int) == symbol_side(data_len as int),
            side * side <= 177 * 177,
        decreases 177 - side,
    {
        side = side + 4;
        proof {
            assert(side * side <= 177 * 177) by (nonlinear_arith) requires side <= 177;
        }
    }
    side
}

/// Module `(row, col)` belongs to a finder pattern, its separator, or a timing pattern.
pub open spec fn reserved(row: int, col: int, side: int) -> bool {
    (row < 9 && col < 9) || (row < 9 && col >= side - 8) || (row >= side - 8 && col < 9) || row == 6 || col == 6
}

/// Whether module `(row, col)` is kept free of data; `side` must be at least eight.
pub fn is_reserved(row: usize, col: usize, side: usize) -> (res: bool)
    requires
        side >= 8,
    ensures
        res == reserved(row as int, col as int, side as int),
{
    if row < 9 && col < 9 {
        return true;
    }
    if row < 9 && col >= side - 8 {
        return true;
    }
    if row >= side - 8 && col < 9 {
        return true;
    }
    if row == 6 || col == 6 {
        return true;
    }
    false
}

/// Module `(lr, lc)` of a seven-by-seven finder pattern: dark border and dark three-by-three
/// centre.
pub open spec fn finder_module(lr: int, lc: int) -> bool {
    lr == 0 || lr == 6 || lc == 0 || lc == 6 || (2 <= lr <= 4 && 2 <= lc <= 4)
}

/// `(row, col)` lies in the seven-by-seven block whose top-left module is `(r0, c0)`.
pub open spec fn in_block(row: int, col: int, r0: int, c0: int) -> bool {
    0 <= row - r0 < 7 && 0 <= col - c0 < 7
}

/// Draws a finder pattern whose top-left module is `(start_row, start_col)`, leaving out
/// the modules that fall outside the grid; the pattern's last row and column must be `i32`
/// coordinates.
pub fn draw_finder_pattern(modules: &mut Vec<Vec<bool>>, start_row: i32, start_col: i32)
    requires
        square_grid(old(modules).deep_view(), old(modules)@.len() as int),
        old(modules)@.len() <= i32::MAX,
        start_row <= i32::MAX - 6,
        start_col <= i32::MAX - 6,
    ensures
        square_grid(final(modules).deep_view(), old(modules)@.len() as int),
        forall|r: int, c: int|
            0 <= r < old(modules)@.len() && 0 <= c < old(modules)@.len() ==> #[trigger] final(modules).deep_view()[r][c]
                == if in_block(r, c, start_row as int, start_col as int) {
                finder_module(r - start_row, c - start_col)
            } else {
                old(modules).deep_view()[r][c]
            },
{
    let side = modules.len() as i32;
    let ghost n = old(modules)@.len() as int;
    let ghost before = old(modules).deep_view();
    assert(modules.deep_view().len() == n);
    let mut r: i32 = 0;
    while r < 7
        invariant
            0 <= r <= 7,
            side == n,
            n == modules@.len(),
            start_row <= i32::MAX - 6,
            start_col <= i32::MAX - 6,
            square_grid(modules.deep_view(), n),
            forall|rr: int, cc: int|
                0 <= rr < n && 0 <= cc < n ==> #[trigger] modules.deep_view()[rr][cc] == if in_block(
                    rr,
                    cc,
                    start_row as int,
                    start_col as int,
                ) && rr - start_row < r {
                    finder_module(rr - start_row, cc - start_col)
                } else {
                    before[rr][cc]
                },
        decreases 7 - r,
    {
        let mut c: i32 = 0;
        while c < 7
            invariant
                0 <= r < 7,
                0 <= c <= 7,
                side == n,
                n == modules@.len(),
                start_row <= i32::MAX - 6,
                start_col <= i32::MAX - 6,
                square_grid(modules.deep_view(), n),
                forall|rr: int, cc: int|
                    0 <= rr < n && 0 <= cc < n ==> #[trigger] modules.deep_view()[rr][cc] == if in_block(
                        rr,
                        cc,
                        start_row as int,
                        start_col as int,
                    ) && (rr - start_row < r || (rr - start_row == r && cc - start_col < c)) {
                        finder_module(rr - start_row, cc - start_col)
                    } else {
                        before[rr][cc]
                    },
            decreases 7 - c,
        {
            let row = start_row + r;
            let col = start_col + c;
            if !(row < 0 || col < 0 || row >= side || col >= side) {
                let is_border = r == 0 || r == 6 || c == 0 || c == 6;
                let is_inner = r >= 2 && r <= 4 && c >= 2 && c <= 4;
                set_module(modules, row as usize, col as usize, is_border || is_inner);
            }
            c = c + 1;
        }
        r = r + 1;
    }
}

/// The fixed part of module `(row, col)`: the three finder patterns and the two timing
/// patterns.
pub open spec fn fixed_module(side: int, row: int, col: int) -> bool {
    if in_block(row, col, 0, 0) {
        finder_module(row, col)
    } else if in_block(row, col, side - 7, 0) {
        finder_module(row - (side - 7), col)
    } else if in_block(row, col, 0, side - 7) {
        finder_module(row, col - (side - 7))
    } else if row == 6 && 8 <= col < side - 8 {
        col % 2 == 0
    } else if col == 6 && 8 <= row < side - 8 {
        row % 2 == 0
    } else {
        false
    }
}

/// The number of data modules in column `col` above row `row`.
pub open spec fn free_above(side: int, col: int, row: int) -> int
    decreases row,
{
    if row <= 0 {
        0
    } else {
        free_above(side, col, row - 1) + if reserved(row - 1, col, side) {
            0int
        } else {
            1int
        }
    }
}

/// The number of data modules in the columns right of `col`.
pub open spec fn free_right_of(side: int, col: int) -> int
    decreases side - col,
{
    if col + 1 >= side {
        0
    } else {
        free_right_of(side, col + 1) + free_above(side, col + 1, side)
    }
}

/// The position of data module `(row, col)` in the fill order: columns from right to
/// left, each from top to bottom.
pub open spec fn data_index(side: int, row: int, col: int) -> int {
    free_right_of(side, col) + free_above(side, col, row)
}

/// Module `(row, col)` of the symbol carrying `bits`: fixed patterns where reserved,
/// otherwise the next bit in fill order, or a checkered fill once the bits run out.
pub open spec fn symbol_module(bits: Seq<bool>, side: int, row: int, col: int) -> bool {
    if reserved(row, col, side) {
        fixed_module(side, row, col)
    } else {
        let idx = data_index(side, row, col);
        if idx < bits.len() {
            bits[idx]
        } else {
            (row + col) % 2 == 0
        }
    }
}

/// The module grid of the symbol carrying `bytes`.
pub open spec fn symbol_grid(bytes: Seq<u8>) -> Seq<Seq<bool>> {
    let side = symbol_side(bytes.len() as int);
    Seq::new(side as nat, |r: int| Seq::new(side as nat, |c: int| symbol_module(bits_of(bytes), side, r, c)))
}

/// The magnification actually used: at least one pixel per module.
pub open spec fn effective_magnification(magnification: i32) -> int {
    if magnification < 1 {
        1
    } else {
        magnification as int
    }
}

proof fn lemma_free_above_bound(side: int, col: int, row: int)
    requires
        0 <= row,
    ensures
        0 <= free_above(side, col, row) <= row,
    decreases row,
{
    if row > 0 {
        lemma_free_above_bound(side, col, row - 1);
    }
}

proof fn lemma_free_right_bound(side: int, col: int)
    requires
        -1 <= col < side,
    ensures
        0 <= free_right_of(side, col) <= (side - 1 - col) * side,
    decreases side - col,
{
    if col + 1 < side {
        lemma_free_right_bound(side, col + 1);
        lemma_free_above_bound(side, col + 1, side);
        assert((side - 1 - (col + 1)) * side + side == (side - 1 - col) * side) by (nonlinear_arith);
    }
}

/// The number of pixels on each edge of the QR picture of non-empty `content` (see
/// `encode`), `None` when `encode` cannot take it.
pub fn picture_side(content: &str, magnification: i32) -> (n: Option<u32>)
    ensures
        n is Some <==> content.spec_bytes().len() * 8 + 200 <= usize::MAX && grid_drawable(
            symbol_side(content.spec_bytes().len() as int),
            4,
            effective_magnification(magnification),
        ),
        n matches Some(v) ==> v == grid_image_side(
            symbol_side(content.spec_bytes().len() as int),
            4,
            effective_magnification(magnification),
        ),
{
    let len = content.as_bytes().len();
    if len > (usize::MAX - 200) / 8 {
        return None;
    }
    let side = compute_side_length(len);
    let mag: u32 = if magnification < 1 {
        1
    } else {
        magnification as u32
    };
    grid_picture_side(side, 4, mag)
}

/// Draws a QR style symbol for `content`: three finder patterns, timing patterns and the
/// content bits in the free modules, every module `magnification` pixels on each edge, with
/// a quiet zone of four modules; empty content is refused.
pub fn encode(content: &str, magnification: i32) -> (res: Result<RgbaImage, String>)
    requires
        content@.len() > 0 ==> content.spec_bytes().len() * 8 + 200 <= usize::MAX && grid_drawable(
            symbol_side(content.spec_bytes().len() as int),
            4,
            effective_magnification(magnification),
        ),
    ensures
        res is Err <==> content@.len() == 0,
        res matches Err(e) ==> e@ == "QR code: empty content"@,
        res matches Ok(img) ==> draws_grid(img, symbol_grid(content.spec_bytes()), 4, effective_magnification(magnification)),
{
    if content.is_empty() {
        return Err("QR code: empty content".to_string());
    }
    let mag: u32 = if magnification < 1 {
        1
    } else {
        magnification as u32
    };
    let data_bytes = content.as_bytes();
    let side = compute_side_length(data_bytes.len());
    let ghost bits_spec = bits_of(data_bytes@);
    let mut modules = new_grid(side);

    // Finder patterns in three corners.
    draw_finder_pattern(&mut modules, 0, 0);
    draw_finder_pattern(&mut modules, side as i32 - 7, 0);
    draw_finder_pattern(&mut modules, 0, side as i32 - 7);

    // Timing patterns.
    let mut i: usize = 8;
    while i < side - 8
        invariant
            8 <= i <= side - 8,
            21 <= side <= 177,
            square_grid(modules.deep_view(), side as int),
            forall|r: int, c: int|
                0 <= r < side && 0 <= c < side ==> #[trigger] modules.deep_view()[r][c] == if (r == 6 && 8 <= c < i) || (
                c == 6 && 8 <= r < i) {
                    fixed_module(side as int, r, c)
                } else if in_block(r, c, 0, 0) || in_block(r, c, side - 7, 0) || in_block(r, c, 0, side - 7) {
                    fixed_module(side as int, r, c)
                } else {
                    false
                },
        decreases side - 8 - i,
    {
        set_module(&mut modules, 6, i, i % 2 == 0);
        set_module(&mut modules, i, 6, i % 2 == 0);
        i = i + 1;
    }

    // Content bits, column by column from the right, each column from the top.
    let data_bits = bytes_to_bits(data_bytes);
    let mut bit_idx: usize = 0;
    let mut col: usize = side;
    proof {
        lemma_free_right_bound(side as int, side as int - 1);
    }
    while col > 0
        invariant
            col <= side,
            21 <= side <= 177,
            data_bits@ == bits_spec,
            bit_idx == free_right_of(side as int, col as int - 1),
            square_grid(modules.deep_view(), side as int),
            forall|r: int, c: int|
                0 <= r < side && 0 <= c < side ==> #[trigger] modules.deep_view()[r][c] == if reserved(r, c, side as int)
                    || c >= col {
                    symbol_module(bits_spec, side as int, r, c)
                } else {
                    false
                },
        decreases col,
    {
        col = col - 1;
        let mut row: usize = 0;
        while row < side
            invariant
                col < side,
                row <= side,
                21 <= side <= 177,
                data_bits@ == bits_spec,
                bit_idx == free_right_of(side as int, col as int) + free_above(side as int, col as int, row as int),
                square_grid(modules.deep_view(), side as int),
                forall|r: int, c: int|
                    0 <= r < side && 0 <= c < side ==> #[trigger] modules.deep_view()[r][c] == if reserved(
                        r,
                        c,
                        side as int,
                    ) || c > col || (c == col && r < row) {
                        symbol_module(bits_spec, side as int, r, c)
                    } else {
                        false
                    },
            decreases side - row,
        {
            proof {
                lemma_free_right_bound(side as int, col as int);
                lemma_free_above_bound(side as int, col as int, row as int);
                let fr = free_right_of(side as int, col as int);
                assert(fr <= 177 * 177) by (nonlinear_arith)
                    requires fr <= (side - 1 - col) * side, 0 <= col < side, side <= 177;
            }
            if !is_reserved(row, col, side) {
                let val = if bit_idx < data_bits.len() {
                    data_bits[bit_idx]
                } else {
                    (row + col) % 2 == 0
                };
                set_module(&mut modules, row, col, val);
                bit_idx = bit_idx + 1;
            }
            row = row + 1;
        }
    }
    proof {
        lemma_drawable_grid_small(side as int, 4, mag as int);
    }
    assert forall|r: int| 0 <= r < side implies #[trigger] modules.deep_view()[r] =~= symbol_grid(data_bytes@)[r] by {
        assert forall|c: int| 0 <= c < side implies #[trigger] modules.deep_view()[r][c] == symbol_grid(data_bytes@)[r][c] by {
            assert(modules.deep_view()[r][c] == symbol_module(bits_spec, side as int, r, c));
        }
    }
    assert(modules.deep_view() =~= symbol_grid(data_bytes@));
    Ok(render_module_grid(&modules, 4, mag))
}

/// Module `a` is filled before module `b`: columns from right to left, each from the top
/// down.
pub open spec fn fills_before(a: (int, int), b: (int, int)) -> bool {
    a.1 > b.1 || (a.1 == b.1 && a.0 < b.0)
}

/// `(row, col)` is a module of a `side` by `side` symbol that is not reserved for the
/// finder and timing patterns, and so carries data.
pub open spec fn data_module(side: int, m: (int, int)) -> bool {
    0 <= m.0 < side && 0 <= m.1 < side && !reserved(m.0, m.1, side)
}

/// The picture of a QR symbol carries its content as it is: a data module whose place in
/// the fill order (see `data_index`, and `first_data_module_takes_bit_zero` and
/// `next_data_module_takes_next_bit` for that order) is within the content's bits is dark
/// exactly when that bit, most significant bit of each byte first, is one. Pixel `(x, y)`
/// lies in module `(y / mag - 4, x / mag - 4)` behind the four quiet modules.
pub proof fn data_modules_carry_content_bits(bytes: Seq<u8>, img: RgbaImage, mag: int)
    requires
        mag >= 1,
        draws_grid(img, symbol_grid(bytes), 4, mag),
    ensures
        forall|x: u32, y: u32|
            x < grid_image_side(symbol_side(bytes.len() as int), 4, mag) && y < grid_image_side(
                symbol_side(bytes.len() as int),
                4,
                mag,
            ) ==> {
                let side = symbol_side(bytes.len() as int);
                let r = y as int / mag - 4;
                let c = x as int / mag - 4;
                (data_module(side, (r, c)) && data_index(side, r, c) < bits_of(bytes).len()) ==> #[trigger] pixel_at(
                    img,
                    x,
                    y,
                ) == if bits_of(bytes)[data_index(side, r, c)] {
                    COLOR_BLACK
                } else {
                    COLOR_WHITE
                }
            },
{
    let side = symbol_side(bytes.len() as int);
    lemma_side_from_bounds(21, bytes.len() as int * 8 + 200);
    assert(symbol_grid(bytes).len() == side);
}

/// Rows `r0` up to `r` of column `col` hold no data module: the count above `r` is the
/// count above `r0`.
proof fn lemma_free_above_skip(side: int, col: int, r0: int, r: int)
    requires
        0 <= r0 <= r,
        forall|rr: int| r0 <= rr < r ==> #[trigger] reserved(rr, col, side),
    ensures
        free_above(side, col, r) == free_above(side, col, r0),
    decreases r - r0,
{
    if r > r0 {
        lemma_free_above_skip(side, col, r0, r - 1);
    }
}

/// The columns strictly between `c` and `c1` hold no data module: the count right of `c`
/// is the count right of `c1 - 1`.
proof fn lemma_free_right_skip(side: int, c: int, c1: int)
    requires
        0 <= c <= c1 - 1,
        c1 <= side,
        forall|cc: int, rr: int| c < cc < c1 && 0 <= rr < side ==> #[trigger] reserved(rr, cc, side),
    ensures
        free_right_of(side, c) == free_right_of(side, c1 - 1),
    decreases c1 - 1 - c,
{
    if c < c1 - 1 {
        lemma_free_right_skip(side, c + 1, c1);
        assert forall|rr: int| 0 <= rr < side implies #[trigger] reserved(rr, c + 1, side) by {}
        lemma_free_above_skip(side, c + 1, 0, side);
    }
}

/// The first data module in fill order takes the content's first bit: its place in the
/// fill order is zero.
pub proof fn first_data_module_takes_bit_zero(side: int, row: int, col: int)
    requires
        side >= 1,
        data_module(side, (row, col)),
        forall|m: (int, int)| data_module(side, m) ==> !#[trigger] fills_before(m, (row, col)),
    ensures
        data_index(side, row, col) == 0,
{
    assert forall|rr: int| 0 <= rr < row implies #[trigger] reserved(rr, col, side) by {
        assert(fills_before((rr, col), (row, col)));
    }
    lemma_free_above_skip(side, col, 0, row);
    assert forall|cc: int, rr: int| col < cc < side && 0 <= rr < side implies #[trigger] reserved(rr, cc, side) by {
        assert(fills_before((rr, cc), (row, col)));
    }
    lemma_free_right_skip(side, col, side);
}

/// Each data module takes the bit after the one of the data module filled just before
/// it: the next data module in fill order has the next place.
pub proof fn next_data_module_takes_next_bit(side: int, p: (int, int), q: (int, int))
    requires
        data_module(side, p),
        data_module(side, q),
        fills_before(p, q),
        forall|m: (int, int)| data_module(side, m) && fills_before(p, m) ==> !#[trigger] fills_before(m, q),
    ensures
        data_index(side, q.0, q.1) == data_index(side, p.0, p.1) + 1,
{
    let (pr, pc) = p;
    let (qr, qc) = q;
    if pc == qc {
        assert forall|rr: int| pr + 1 <= rr < qr implies #[trigger] reserved(rr, pc, side) by {
            assert(fills_before(p, (rr, pc)) && fills_before((rr, pc), q));
        }
        lemma_free_above_skip(side, pc, pr + 1, qr);
    } else {
        assert forall|rr: int| pr + 1 <= rr < side implies #[trigger] reserved(rr, pc, side) by {
            assert(fills_before(p, (rr, pc)) && fills_before((rr, pc), q));
        }
        lemma_free_above_skip(side, pc, pr + 1, side);
        assert forall|cc: int, rr: int| qc < cc < pc && 0 <= rr < side implies #[trigger] reserved(rr, cc, side) by {
            assert(fills_before(p, (rr, cc)) && fills_before((rr, cc), q));
        }
        lemma_free_right_skip(side, qc, pc);
        assert forall|rr: int| 0 <= rr < qr implies #[trigger] reserved(rr, qc, side) by {
            assert(fills_before(p, (rr, qc)) && fills_before((rr, qc), q));
        }
        lemma_free_above_skip(side, qc, 0, qr);
    }
}

} // verus!
