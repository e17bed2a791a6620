use vstd::prelude::*;

use crate::images::{
    allocatable, image_contents, image_size, pixel_at, Pixel, RgbaImage,
    COLOR_BLACK, COLOR_WHITE,
};

pub mod aztec;
pub mod code128;
pub mod datamatrix;
pub mod pdf417;
pub mod qrcode;

verus! {

/// Bit `k` of `bytes`, reading each byte from its most significant bit down.
pub open spec fn data_bit(bytes: Seq<u8>, k: int) -> bool {
    (bytes[k / 8] >> ((7 - k % 8) as u8)) & 1 == 1
}

/// The bits of `bytes`, most significant bit of each byte first.
pub open spec fn bits_of(bytes: Seq<u8>) -> Seq<bool> {
    Seq::new(bytes.len() * 8, |k: int| data_bit(bytes, k))
}

/// The bits of `bytes`, most significant bit of each byte first.
pub fn bytes_to_bits(bytes: &[u8]) -> (bits: Vec<bool>)
    requires
        bytes@.len() * 8 <= usize::MAX,
    ensures
        bits@ == bits_of(bytes@),
{
    let mut bits: Vec<bool> = Vec::new();
    let mut i: usize = 0;
    while i < bytes.len()
        invariant
            i <= bytes@.len(),
            bytes@.len() * 8 <= usize::MAX,
            bits@.len() == i * 8,
            forall|k: int| 0 <= k < bits@.len() ==> #[trigger] bits@[k] == data_bit(bytes@, k),
        decreases bytes@.len() - i,
    {
        let b = bytes[i];
        let mut shift: u8 = 8;
        while shift > 0
            invariant
                i < bytes@.len(),
                b == bytes@[i as int],
                shift <= 8,
                bits@.len() == i * 8 + (8 - shift),
                forall|k: int| 0 <= k < bits@.len() ==> #[trigger] bits@[k] == data_bit(bytes@, k),
            decreases shift,
        {
            shift = shift - 1;
            let ghost k = bits@.len() as int;
            bits.push((b >> shift) & 1 == 1);
            assert(k / 8 == i as int && k % 8 == 7 - shift);
            assert(bits@[k] == data_bit(bytes@, k));
        }
        i = i + 1;
    }
    assert(bits@ =~= bits_of(bytes@));
    bits
}

/// A `side` by `side` grid with every module clear.
pub fn new_grid(side: usize) -> (modules: Vec<Vec<bool>>)
    ensures
        square_grid(modules.deep_view(), side as int),
        forall|r: int, c: int| 0 <= r < side && 0 <= c < side ==> !#[trigger] modules.deep_view()[r][c],
{
    let mut row: Vec<bool> = Vec::new();
    let mut i: usize = 0;
    while i < side
        invariant
            i <= side,
            row@.len() == i,
            forall|c: int| 0 <= c < i ==> !#[trigger] row@[c],
        decreases side - i,
    {
        row.push(false);
        i = i + 1;
    }
    let mut modules: Vec<Vec<bool>> = Vec::new();
    let mut j: usize = 0;
    while j < side
        invariant
            j <= side,
            row@.len() == side,
            forall|c: int| 0 <= c < side ==> !#[trigger] row@[c],
            modules@.len() == j,
            forall|r: int| 0 <= r < j ==> #[trigger] modules@[r]@ == row@,
        decreases side - j,
    {
        modules.push(row.clone());
        j = j + 1;
    }
    assert forall|r: int| 0 <= r < side implies #[trigger] modules.deep_view()[r] == row@ by {
        assert(modules.deep_view()[r] =~= modules@[r]@);
    }
    modules
}

/// Sets module `(r, c)` of a grid to `v`.
pub fn set_module(modules: &mut Vec<Vec<bool>>, r: usize, c: usize, v: bool)
    requires
        r < old(modules).deep_view().len(),
        c < old(modules).deep_view()[r as int].len(),
    ensures
        final(modules)@.len() == old(modules)@.len(),
        final(modules).deep_view() == old(modules).deep_view().update(
            r as int,
            old(modules).deep_view()[r as int].update(c as int, v),
        ),
{
    assert(old(modules).deep_view()[r as int] =~= old(modules)@[r as int]@);
    modules[r][c] = v;
    assert(modules.deep_view()[r as int] =~= old(modules).deep_view()[r as int].update(c as int, v));
    assert(modules.deep_view() =~= old(modules).deep_view().update(
        r as int,
        old(modules).deep_view()[r as int].update(c as int, v),
    ));
}

/// A module grid that is `side` modules on each edge.
pub open spec fn square_grid(modules: Seq<Seq<bool>>, side: int) -> bool {
    &&& modules.len() == side
    &&& forall|r: int| 0 <= r < side ==> #[trigger] modules[r].len() == side
}

/// The colour of pixel `(x, y)` in the picture of a module grid drawn with `quiet`
/// white modules round it and every module `mag` pixels on each edge.
pub open spec fn grid_pixel(modules: Seq<Seq<bool>>, quiet: int, mag: int, x: int, y: int) -> Pixel {
    let c = x / mag - quiet;
    let r = y / mag - quiet;
    if 0 <= r < modules.len() && 0 <= c < modules[r].len() && modules[r][c] {
        COLOR_BLACK
    } else {
        COLOR_WHITE
    }
}

/// The number of pixels on each edge of the picture of a `side` by `side` grid.
pub open spec fn grid_image_side(side: int, quiet: int, mag: int) -> int {
    (side + 2 * quiet) * mag
}

/// The grid can be drawn: its picture has a size that `u32` and memory can hold.
pub open spec fn grid_drawable(side: int, quiet: int, mag: int) -> bool {
    &&& grid_image_side(side, quiet, mag) <= u32::MAX
    &&& allocatable(grid_image_side(side, quiet, mag) as u32, grid_image_side(side, quiet, mag) as u32)
}

/// A drawable grid is small: its side fits in `u32` and its module count in memory.
pub proof fn lemma_drawable_grid_small(side: int, quiet: int, mag: int)
    requires
        side >= 0,
        quiet >= 0,
        mag >= 1,
        grid_drawable(side, quiet, mag),
    ensures
        side <= u32::MAX,
        side * side <= isize::MAX,
{
    let k = side + 2 * quiet;
    let n = k * mag;
    assert(side <= k * mag) by (nonlinear_arith) requires side <= k, k >= 0, mag >= 1;
    assert(side * side <= n * n) by (nonlinear_arith) requires 0 <= side <= n;
    assert(n * n <= n * n * 4) by (nonlinear_arith);
}

/// The number of pixels on each edge of the picture of a `side` by `side` grid with `quiet`
/// modules round it and every module `mag` pixels wide, when the picture can be drawn.
pub fn grid_picture_side(side: usize, quiet: usize, mag: u32) -> (n: Option<u32>)
    ensures
        n is Some <==> grid_drawable(side as int, quiet as int, mag as int),
        n matches Some(v) ==> v == grid_image_side(side as int, quiet as int, mag as int),
{
    let k: u128 = side as u128 + 2 * quiet as u128;
    assert(k * mag <= 0x3_0000_0000_0000_0000 * 0xffff_ffff) by (nonlinear_arith)
        requires k <= 0x3_0000_0000_0000_0000, mag <= 0xffff_ffff;
    let total: u128 = k * mag as u128;
    if total > 0xffff_ffff {
        return None;
    }
    assert(total * total * 4 <= 0xffff_ffff * 0xffff_ffff * 4) by (nonlinear_arith)
        requires total <= 0xffff_ffff;
    if total * total * 4 > isize::MAX as u128 {
        return None;
    }
    Some(total as u32)
}

/// `img` is the picture of the grid `modules`.
pub open spec fn draws_grid(img: RgbaImage, modules: Seq<Seq<bool>>, quiet: int, mag: int) -> bool {
    let n = grid_image_side(modules.len() as int, quiet, mag);
    &&& image_size(img) == (n as u32, n as u32)
    &&& forall|x: u32, y: u32|
        x < n && y < n ==> #[trigger] pixel_at(img, x, y) == grid_pixel(modules, quiet, mag, x as int, y as int)
}

/// Draws a square module grid: white background, `quiet` white modules round the grid,
/// every module `mag` pixels on each edge and black where the module is set.
pub fn render_module_grid(modules: &Vec<Vec<bool>>, quiet: usize, mag: u32) -> (img: RgbaImage)
    requires
        mag >= 1,
        square_grid(modules.deep_view(), modules@.len() as int),
        grid_drawable(modules@.len() as int, quiet as int, mag as int),
    ensures
        draws_grid(img, modules.deep_view(), quiet as int, mag as int),
{
    let side = modules.len();
    let ghost grid = modules.deep_view();
    proof {
        let k = side as int + 2 * quiet as int;
        assert(k <= k * mag) by (nonlinear_arith) requires k >= 0, mag >= 1;
    }
    let n: u32 = ((side + quiet * 2) as u32) * mag;
    let mut img = RgbaImage::from_pixel(n, n, COLOR_WHITE);
    let mut y: u32 = 0;
    while y < n
        invariant
            side == modules@.len(),
            grid == modules.deep_view(),
            square_grid(grid, side as int),
            mag >= 1,
            n == grid_image_side(side as int, quiet as int, mag as int),
            image_size(img) == (n, n),
            y <= n,
            forall|px: u32, py: u32|
                px < n && py < n ==> #[trigger] pixel_at(img, px, py) == if py < y {
                    grid_pixel(grid, quiet as int, mag as int, px as int, py as int)
                } else {
                    COLOR_WHITE
                },
        decreases n - y,
    {
        let mut x: u32 = 0;
        while x < n
            invariant
                side == modules@.len(),
                grid == modules.deep_view(),
                square_grid(grid, side as int),
                mag >= 1,
                n == grid_image_side(side as int, quiet as int, mag as int),
                image_size(img) == (n, n),
                y < n,
                x <= n,
                forall|px: u32, py: u32|
                    px < n && py < n ==> #[trigger] pixel_at(img, px, py) == if py < y || (py == y && px < x) {
                        grid_pixel(grid, quiet as int, mag as int, px as int, py as int)
                    } else {
                        COLOR_WHITE
                    },
            decreases n - x,
        {
            let cx = (x / mag) as usize;
            let cy = (y / mag) as usize;
            let mut black = false;
            if cx >= quiet && cy >= quiet && cy - quiet < side && cx - quiet < side {
                proof {
                    assert(grid[(cy - quiet) as int] =~= modules@[(cy - quiet) as int]@);
                    assert(grid[(cy - quiet) as int].len() == side);
                }
                black = modules[cy - quiet][cx - quiet];
            }
            assert(black == (grid_pixel(grid, quiet as int, mag as int, x as int, y as int) == COLOR_BLACK));
            if black {
                let ghost prev = img;
                img.put_pixel(x, y, COLOR_BLACK);
                assert forall|px: u32, py: u32| px < n && py < n && (px, py) != (x, y) implies #[trigger] pixel_at(img, px, py)
                    == pixel_at(prev, px, py) by {
                    assert(image_contents(img)[(px, py)] == image_contents(prev)[(px, py)]);
                }
            }
            x = x + 1;
        }
        y = y + 1;
    }
    img
}

} // verus!
