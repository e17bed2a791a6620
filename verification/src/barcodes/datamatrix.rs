use vstd::prelude::*;

use super::{lemma_drawable_grid_small, bits_of, bytes_to_bits, draws_grid, grid_drawable, grid_image_side, grid_picture_side, new_grid, render_module_grid, set_module, square_grid};
use crate::images::{pixel_at, RgbaImage, COLOR_BLACK, COLOR_WHITE};
use vstd::string::StringSliceAdditionalSpecFns;

verus! {

broadcast use vstd::string::group_string_axioms;

/// `k` is the least natural number whose square is at least `n`.
pub open spec fn is_ceil_sqrt(n: int, k: int) -> bool {
    &&& k >= 0
    &&& k * k >= n
    &&& (k == 0 || (k - 1) * (k - 1) < n)
}

/// The least natural number whose square is at least `n`.
pub open spec fn ceil_sqrt(n: int) -> int {
    choose|k: int| is_ceil_sqrt(n, k)
}

proof fn lemma_ceil_sqrt_unique(n: int, k: int)
    requires
        is_ceil_sqrt(n, k),
    ensures
        ceil_sqrt(n) == k,
{
    let j = ceil_sqrt(n);
    assert(is_ceil_sqrt(n, j));
    if j < k {
        assert(j * j <= (k - 1) * (k - 1)) by (nonlinear_arith) requires 0 <= j <= k - 1;
    } else if k < j {
        assert(k * k <= (j - 1) * (j - 1)) by (nonlinear_arith) requires 0 <= k <= j - 1;
    }
}

/// The least natural number whose square is at least `n`.
fn ceil_sqrt_exec(n: usize) -> (k: usize)
    ensures
        k == ceil_sqrt(n as int),
        k <= n,
        k <= 0x1_0000_0000,
        k < usize::MAX,
{
    let mut k: usize = 0;
    while (k as u128) * (k as u128) < n as u128
        invariant
            k <= n,
            k == 0 || (k - 1) * (k - 1) < n,
            (k as int) * (k as int) <= u128::MAX,
        decreases n - k,
    {
        proof {
            if k >= 1 {
                assert(k <= k * k) by (nonlinear_arith) requires k >= 1;
            }
        }
        k = k + 1;
        proof {
            assert((k as int) * (k as int) <= u128::MAX) by (nonlinear_arith)
                requires k <= usize::MAX, usize::MAX <= u64::MAX;
        }
    }
    proof {
        lemma_ceil_sqrt_unique(n as int, k as int);
        if k > 0x1_0000_0000 {
            assert((k - 1) * (k - 1) >= 0x1_0000_0000 * 0x1_0000_0000) by (nonlinear_arith)
                requires k - 1 >= 0x1_0000_0000;
            assert(n <= usize::MAX);
        }
        if k >= 3 {
            assert((k - 1) * (k - 1) > k) by (nonlinear_arith) requires k >= 3;
        }
    }
    k
}

/// The number of modules on each edge of the symbol for `len` bytes of content.
pub open spec fn symbol_side(len: int) -> int {
    let side = if len <= 3 {
        10
    } else if len <= 6 {
        12
    } else if len <= 10 {
        14
    } else if len <= 16 {
        16
    } else if len <= 25 {
        18
    } else if len <= 36 {
        20
    } else if len <= 49 {
        22
    } else if len <= 64 {
        24
    } else if len <= 100 {
        26
    } else {
        ceil_sqrt(len) + ceil_sqrt(len) % 2
    };
    if side < 10 {
        10
    } else {
        side
    }
}

/// Module `(r, c)` of a symbol `side` modules wide carrying `bits`: solid left and bottom
/// edges, alternating top and right edges, the bits row by row inside and a checkered fill
/// once the bits run out.
pub open spec fn symbol_module(bits: Seq<bool>, side: int, r: int, c: int) -> bool {
    if r == 0 {
        c % 2 == 0
    } else if c == side - 1 {
        r % 2 == 0
    } else if r == side - 1 || c == 0 {
        true
    } else {
        let idx = (r - 1) * (side - 2) + (c - 1);
        if idx < bits.len() {
            bits[idx]
        } else {
            (r + c) % 2 == 0
        }
    }
}

/// The module grid of the symbol carrying `bytes`.
pub open spec fn symbol_grid(bytes: Seq<u8>) -> Seq<Seq<bool>> {
    let side = symbol_side(bytes.len() as int);
    Seq::new(side as nat, |r: int| Seq::new(side as nat, |c: int| symbol_module(bits_of(bytes), side, r, c)))
}

/// The magnification actually used: at least one pixel per module.
pub open spec fn effective_magnification(magnification: i32) -> int {
    if magnification < 1 {
        1
    } else {
        magnification as int
    }
}

/// The number of modules on each edge of the symbol for `needed` bytes of content.
pub fn symbol_side_exec(needed: usize) -> (side: usize)
    ensures
        side == symbol_side(needed as int),
{
    let side: usize = if needed <= 3 {
        10
    } else if needed <= 6 {
        12
    } else if needed <= 10 {
        14
    } else if needed <= 16 {
        16
    } else if needed <= 25 {
        18
    } else if needed <= 36 {
        20
    } else if needed <= 49 {
        22
    } else if needed <= 64 {
        24
    } else if needed <= 100 {
        26
    } else {
        let k = ceil_sqrt_exec(needed);
        k + k % 2
    };
    let side = if side < 10 {
        10
    } else {
        side
    };
    side
}

/// The number of pixels on each edge of the Data Matrix picture of non-empty `content`
/// (see `encode`), `None` when `encode` cannot take it.
pub fn picture_side(content: &str, magnification: i32) -> (n: Option<u32>)
    ensures
        n is Some <==> content.spec_bytes().len() * 8 <= usize::MAX && grid_drawable(
            symbol_side(content.spec_bytes().len() as int),
            2,
            effective_magnification(magnification),
        ),
        n matches Some(v) ==> v == grid_image_side(
            symbol_side(content.spec_bytes().len() as int),
            2,
            effective_magnification(magnification),
        ),
{
    let len = content.as_bytes().len();
    if len > usize::MAX / 8 {
        return None;
    }
    let side = symbol_side_exec(len);
    let mag: u32 = if magnification < 1 {
        1
    } else {
        magnification as u32
    };
    grid_picture_side(side, 2, mag)
}

/// Draws a Data Matrix style symbol for `content`, every module `magnification` pixels on
/// each edge, with a quiet zone of two modules; empty content is refused.
pub fn encode(content: &str, magnification: i32) -> (res: Result<RgbaImage, String>)
    requires
        content@.len() > 0 ==> content.spec_bytes().len() * 8 <= usize::MAX && grid_drawable(
            symbol_side(content.spec_bytes().len() as int),
            2,
            effective_magnification(magnification),
        ),
    ensures
        res is Err <==> content@.len() == 0,
        res matches Err(e) ==> e@ == "DataMatrix: empty content"@,
        res matches Ok(img) ==> draws_grid(img, symbol_grid(content.spec_bytes()), 2, effective_magnification(magnification)),
{
    if content.is_empty() {
        return Err("DataMatrix: empty content".to_string());
    }
    let mag: u32 = if magnification < 1 {
        1
    } else {
        magnification as u32
    };
    let data_bytes = content.as_bytes();
    let needed = data_bytes.len();
    let side = symbol_side_exec(needed);
    assert(side == symbol_side(needed as int));
    proof {
        lemma_drawable_grid_small(side as int, 2, mag as int);
    }
    let ghost bits_spec = bits_of(data_bytes@);
    let ghost l1 = |r: int, c: int| r == side - 1 || c == 0;

    let mut modules = new_grid(side);
    // Solid finder edges: the bottom row and the left column.
    let mut i: usize = 0;
    while i < side
        invariant
            i <= side,
            side >= 10,
            side <= u32::MAX,
            side * side <= isize::MAX,
            square_grid(modules.deep_view(), side as int),
            forall|r: int, c: int|
                0 <= r < side && 0 <= c < side ==> #[trigger] modules.deep_view()[r][c] == ((r == side - 1 && c
                    < i) || (c == 0 && r < i)),
        decreases side - i,
    {
        set_module(&mut modules, side - 1, i, true);
        set_module(&mut modules, i, 0, true);
        i = i + 1;
    }
    // Alternating clock track: the top row and the right column.
    let mut i: usize = 0;
    while i < side
        invariant
            i <= side,
            side >= 10,
            side <= u32::MAX,
            side * side <= isize::MAX,
            square_grid(modules.deep_view(), side as int),
            forall|r: int, c: int|
                0 <= r < side && 0 <= c < side ==> #[trigger] modules.deep_view()[r][c] == if r == 0 && c < i {
                    c % 2 == 0
                } else if c == side - 1 && r < i {
                    r % 2 == 0
                } else {
                    r == side - 1 || c == 0
                },
        decreases side - i,
    {
        set_module(&mut modules, 0, i, i % 2 == 0);
        set_module(&mut modules, i, side - 1, i % 2 == 0);
        i = i + 1;
    }
    let data_bits = bytes_to_bits(data_bytes);
    let inner = side - 2;
    let mut bit_idx: usize = 0;
    let mut row: usize = 1;
    while row < side - 1
        invariant
            1 <= row <= side - 1,
            side >= 10,
            side <= u32::MAX,
            side * side <= isize::MAX,
            inner == side - 2,
            data_bits@ == bits_spec,
            bit_idx == (row - 1) * inner,
            square_grid(modules.deep_view(), side as int),
            forall|r: int, c: int|
                0 <= r < side && 0 <= c < side ==> #[trigger] modules.deep_view()[r][c] == if 1 <= r < row && 1 <= c
                    < side - 1 {
                    symbol_module(bits_spec, side as int, r, c)
                } else if r == 0 {
                    c % 2 == 0
                } else if c == side - 1 {
                    r % 2 == 0
                } else {
                    r == side - 1 || c == 0
                },
        decreases side - 1 - row,
    {
        let mut col: usize = 1;
        while col < side - 1
            invariant
                1 <= row < side - 1,
                1 <= col <= side - 1,
                side >= 10,
                side <= u32::MAX,
                side * side <= isize::MAX,
                inner == side - 2,
                data_bits@ == bits_spec,
                bit_idx == (row - 1) * inner + (col - 1),
                square_grid(modules.deep_view(), side as int),
                forall|r: int, c: int|
                    0 <= r < side && 0 <= c < side ==> #[trigger] modules.deep_view()[r][c] == if (1 <= r < row && 1
                        <= c < side - 1) || (r == row && 1 <= c < col) {
                        symbol_module(bits_spec, side as int, r, c)
                    } else if r == 0 {
                        c % 2 == 0
                    } else if c == side - 1 {
                        r % 2 == 0
                    } else {
                        r == side - 1 || c == 0
                    },
            decreases side - 1 - col,
        {
            proof {
                assert(2 * side <= side * side) by (nonlinear_arith) requires side >= 10;
            }
            let val = if bit_idx < data_bits.len() {
                data_bits[bit_idx]
            } else {
                (row + col) % 2 == 0
            };
            set_module(&mut modules, row, col, val);
            proof {
                assert(bit_idx + 1 <= side * side) by (nonlinear_arith)
                    requires bit_idx == (row - 1) * inner + (col - 1), 1 <= row <= inner, 1 <= col <= inner, inner == side - 2;
            }
            bit_idx = bit_idx + 1;
            col = col + 1;
        }
        proof {
            assert((row - 1) * inner + inner == row * inner) by (nonlinear_arith);
        }
        row = row + 1;
    }
    assert forall|r: int| 0 <= r < side implies #[trigger] modules.deep_view()[r] =~= symbol_grid(data_bytes@)[r] by {
        assert forall|c: int| 0 <= c < side implies #[trigger] modules.deep_view()[r][c] == symbol_grid(data_bytes@)[r][c] by {
            assert(modules.deep_view()[r][c] == symbol_module(bits_spec, side as int, r, c));
        }
    }
    assert(modules.deep_view() =~= symbol_grid(data_bytes@));
    Ok(render_module_grid(&modules, 2, mag))
}

/// The picture of a Data Matrix symbol carries its content as it is: the modules inside
/// the border, read row by row from the top left, hold the content's bits, most
/// significant bit of each byte first, dark for a one and light for a zero. Pixel `(x, y)`
/// lies in module `(y / mag - 2, x / mag - 2)` behind the two quiet modules.
pub proof fn interior_modules_carry_content_bits(bytes: Seq<u8>, img: RgbaImage, mag: int)
    requires
        mag >= 1,
        draws_grid(img, symbol_grid(bytes), 2, mag),
    ensures
        forall|x: u32, y: u32|
            x < grid_image_side(symbol_side(bytes.len() as int), 2, mag) && y < grid_image_side(
                symbol_side(bytes.len() as int),
                2,
                mag,
            ) ==> {
                let side = symbol_side(bytes.len() as int);
                let r = y as int / mag - 2;
                let c = x as int / mag - 2;
                let i = (r - 1) * (side - 2) + (c - 1);
                (1 <= r <= side - 2 && 1 <= c <= side - 2 && i < bits_of(bytes).len()) ==> #[trigger] pixel_at(img, x, y)
                    == if bits_of(bytes)[i] {
                    COLOR_BLACK
                } else {
                    COLOR_WHITE
                }
            },
{
    let side = symbol_side(bytes.len() as int);
    assert(side >= 10);
    assert(symbol_grid(bytes).len() == side);
}

} // verus!
