use vstd::prelude::*;

use crate::images::{allocatable, image_contents, image_size, pixel_at, RgbaImage, COLOR_BLACK, COLOR_WHITE};

verus! {

broadcast use vstd::string::group_string_axioms;

/// The character that stands for the FNC1 function code in content.
pub const ESCAPE_FNC_1: char = '\u{00F1}';

pub const CODE_A_START: u8 = 103;

pub const CODE_B_START: u8 = 104;

pub const CODE_C_START: u8 = 105;

pub const STOP: u8 = 106;

pub const FNC_1: u8 = 102;

/// The bar and space widths of symbol character `code`, bar first.
pub open spec fn pattern(code: u8) -> Seq<u8> {
    match code {
        0 => seq![2u8, 1, 2, 2, 2, 2],
        1 => seq![2u8, 2, 2, 1, 2, 2],
        2 => seq![2u8, 2, 2, 2, 2, 1],
        3 => seq![1u8, 2, 1, 2, 2, 3],
        4 => seq![1u8, 2, 1, 3, 2, 2],
        5 => seq![1u8, 3, 1, 2, 2, 2],
        6 => seq![1u8, 2, 2, 2, 1, 3],
        7 => seq![1u8, 2, 2, 3, 1, 2],
        8 => seq![1u8, 3, 2, 2, 1, 2],
        9 => seq![2u8, 2, 1, 2, 1, 3],
        10 => seq![2u8, 2, 1, 3, 1, 2],
        11 => seq![2u8, 3, 1, 2, 1, 2],
        12 => seq![1u8, 1, 2, 2, 3, 2],
        13 => seq![1u8, 2, 2, 1, 3, 2],
        14 => seq![1u8, 2, 2, 2, 3, 1],
        15 => seq![1u8, 1, 3, 2, 2, 2],
        16 => seq![1u8, 2, 3, 1, 2, 2],
        17 => seq![1u8, 2, 3, 2, 2, 1],
        18 => seq![2u8, 2, 3, 2, 1, 1],
        19 => seq![2u8, 2, 1, 1, 3, 2],
        20 => seq![2u8, 2, 1, 2, 3, 1],
        21 => seq![2u8, 1, 3, 2, 1, 2],
        22 => seq![2u8, 2, 3, 1, 1, 2],
        23 => seq![3u8, 1, 2, 1, 3, 1],
        24 => seq![3u8, 1, 1, 2, 2, 2],
        25 => seq![3u8, 2, 1, 1, 2, 2],
        26 => seq![3u8, 2, 1, 2, 2, 1],
        27 => seq![3u8, 1, 2, 2, 1, 2],
        28 => seq![3u8, 2, 2, 1, 1, 2],
        29 => seq![3u8, 2, 2, 2, 1, 1],
        30 => seq![2u8, 1, 2, 1, 2, 3],
        31 => seq![2u8, 1, 2, 3, 2, 1],
        32 => seq![2u8, 3, 2, 1, 2, 1],
        33 => seq![1u8, 1, 1, 3, 2, 3],
        34 => seq![1u8, 3, 1, 1, 2, 3],
        35 => seq![1u8, 3, 1, 3, 2, 1],
        36 => seq![1u8, 1, 2, 3, 1, 3],
        37 => seq![1u8, 3, 2, 1, 1, 3],
        38 => seq![1u8, 3, 2, 3, 1, 1],
        39 => seq![2u8, 1, 1, 3, 1, 3],
        40 => seq![2u8, 3, 1, 1, 1, 3],
        41 => seq![2u8, 3, 1, 3, 1, 1],
        42 => seq![1u8, 1, 2, 1, 3, 3],
        43 => seq![1u8, 1, 2, 3, 3, 1],
        44 => seq![1u8, 3, 2, 1, 3, 1],
        45 => seq![1u8, 1, 3, 1, 2, 3],
        46 => seq![1u8, 1, 3, 3, 2, 1],
        47 => seq![1u8, 3, 3, 1, 2, 1],
        48 => seq![3u8, 1, 3, 1, 2, 1],
        49 => seq![2u8, 1, 1, 3, 3, 1],
        50 => seq![2u8, 3, 1, 1, 3, 1],
        51 => seq![2u8, 1, 3, 1, 1, 3],
        52 => seq![2u8, 1, 3, 3, 1, 1],
        53 => seq![2u8, 1, 3, 1, 3, 1],
        54 => seq![3u8, 1, 1, 1, 2, 3],
        55 => seq![3u8, 1, 1, 3, 2, 1],
        56 => seq![3u8, 3, 1, 1, 2, 1],
        57 => seq![3u8, 1, 2, 1, 1, 3],
        58 => seq![3u8, 1, 2, 3, 1, 1],
        59 => seq![3u8, 3, 2, 1, 1, 1],
        60 => seq![3u8, 1, 4, 1, 1, 1],
        61 => seq![2u8, 2, 1, 4, 1, 1],
        62 => seq![4u8, 3, 1, 1, 1, 1],
        63 => seq![1u8, 1, 1, 2, 2, 4],
        64 => seq![1u8, 1, 1, 4, 2, 2],
        65 => seq![1u8, 2, 1, 1, 2, 4],
        66 => seq![1u8, 2, 1, 4, 2, 1],
        67 => seq![1u8, 4, 1, 1, 2, 2],
        68 => seq![1u8, 4, 1, 2, 2, 1],
        69 => seq![1u8, 1, 2, 2, 1, 4],
        70 => seq![1u8, 1, 2, 4, 1, 2],
        71 => seq![1u8, 2, 2, 1, 1, 4],
        72 => seq![1u8, 2, 2, 4, 1, 1],
        73 => seq![1u8, 4, 2, 1, 1, 2],
        74 => seq![1u8, 4, 2, 2, 1, 1],
        75 => seq![2u8, 4, 1, 2, 1, 1],
        76 => seq![2u8, 2, 1, 1, 1, 4],
        77 => seq![4u8, 1, 3, 1, 1, 1],
        78 => seq![2u8, 4, 1, 1, 1, 2],
        79 => seq![1u8, 3, 4, 1, 1, 1],
        80 => seq![1u8, 1, 1, 2, 4, 2],
        81 => seq![1u8, 2, 1, 1, 4, 2],
        82 => seq![1u8, 2, 1, 2, 4, 1],
        83 => seq![1u8, 1, 4, 2, 1, 2],
        84 => seq![1u8, 2, 4, 1, 1, 2],
        85 => seq![1u8, 2, 4, 2, 1, 1],
        86 => seq![4u8, 1, 1, 2, 1, 2],
        87 => seq![4u8, 2, 1, 1, 1, 2],
        88 => seq![4u8, 2, 1, 2, 1, 1],
        89 => seq![2u8, 1, 2, 1, 4, 1],
        90 => seq![2u8, 1, 4, 1, 2, 1],
        91 => seq![4u8, 1, 2, 1, 2, 1],
        92 => seq![1u8, 1, 1, 1, 4, 3],
        93 => seq![1u8, 1, 1, 3, 4, 1],
        94 => seq![1u8, 3, 1, 1, 4, 1],
        95 => seq![1u8, 1, 4, 1, 1, 3],
        96 => seq![1u8, 1, 4, 3, 1, 1],
        97 => seq![4u8, 1, 1, 1, 1, 3],
        98 => seq![4u8, 1, 1, 3, 1, 1],
        99 => seq![1u8, 1, 3, 1, 4, 1],
        100 => seq![1u8, 1, 4, 1, 3, 1],
        101 => seq![3u8, 1, 1, 1, 4, 1],
        102 => seq![4u8, 1, 1, 1, 3, 1],
        103 => seq![2u8, 1, 1, 4, 1, 2],
        104 => seq![2u8, 1, 1, 2, 1, 4],
        105 => seq![2u8, 1, 1, 2, 3, 2],
        106 => seq![2u8, 3, 3, 1, 1, 1],
        107 => seq![2u8, 1, 1, 1, 3, 2],
        _ => seq![],
    }
}

/// The bar and space widths of the stop pattern, bar first.
pub open spec fn stop_pattern() -> Seq<u8> {
    seq![2u8, 3, 3, 1, 1, 1, 2]
}

fn code_pattern(code: u8) -> (p: [u8; 6])
    requires
        code < 108,
    ensures
        p@ == pattern(code),
{
    let p: [u8; 6] = match code {
        0 => [2, 1, 2, 2, 2, 2],
        1 => [2, 2, 2, 1, 2, 2],
        2 => [2, 2, 2, 2, 2, 1],
        3 => [1, 2, 1, 2, 2, 3],
        4 => [1, 2, 1, 3, 2, 2],
        5 => [1, 3, 1, 2, 2, 2],
        6 => [1, 2, 2, 2, 1, 3],
        7 => [1, 2, 2, 3, 1, 2],
        8 => [1, 3, 2, 2, 1, 2],
        9 => [2, 2, 1, 2, 1, 3],
        10 => [2, 2, 1, 3, 1, 2],
        11 => [2, 3, 1, 2, 1, 2],
        12 => [1, 1, 2, 2, 3, 2],
        13 => [1, 2, 2, 1, 3, 2],
        14 => [1, 2, 2, 2, 3, 1],
        15 => [1, 1, 3, 2, 2, 2],
        16 => [1, 2, 3, 1, 2, 2],
        17 => [1, 2, 3, 2, 2, 1],
        18 => [2, 2, 3, 2, 1, 1],
        19 => [2, 2, 1, 1, 3, 2],
        20 => [2, 2, 1, 2, 3, 1],
        21 => [2, 1, 3, 2, 1, 2],
        22 => [2, 2, 3, 1, 1, 2],
        23 => [3, 1, 2, 1, 3, 1],
        24 => [3, 1, 1, 2, 2, 2],
        25 => [3, 2, 1, 1, 2, 2],
        26 => [3, 2, 1, 2, 2, 1],
        27 => [3, 1, 2, 2, 1, 2],
        28 => [3, 2, 2, 1, 1, 2],
        29 => [3, 2, 2, 2, 1, 1],
        30 => [2, 1, 2, 1, 2, 3],
        31 => [2, 1, 2, 3, 2, 1],
        32 => [2, 3, 2, 1, 2, 1],
        33 => [1, 1, 1, 3, 2, 3],
        34 => [1, 3, 1, 1, 2, 3],
        35 => [1, 3, 1, 3, 2, 1],
        36 => [1, 1, 2, 3, 1, 3],
        37 => [1, 3, 2, 1, 1, 3],
        38 => [1, 3, 2, 3, 1, 1],
        39 => [2, 1, 1, 3, 1, 3],
        40 => [2, 3, 1, 1, 1, 3],
        41 => [2, 3, 1, 3, 1, 1],
        42 => [1, 1, 2, 1, 3, 3],
        43 => [1, 1, 2, 3, 3, 1],
        44 => [1, 3, 2, 1, 3, 1],
        45 => [1, 1, 3, 1, 2, 3],
        46 => [1, 1, 3, 3, 2, 1],
        47 => [1, 3, 3, 1, 2, 1],
        48 => [3, 1, 3, 1, 2, 1],
        49 => [2, 1, 1, 3, 3, 1],
        50 => [2, 3, 1, 1, 3, 1],
        51 => [2, 1, 3, 1, 1, 3],
        52 => [2, 1, 3, 3, 1, 1],
        53 => [2, 1, 3, 1, 3, 1],
        54 => [3, 1, 1, 1, 2, 3],
        55 => [3, 1, 1, 3, 2, 1],
        56 => [3, 3, 1, 1, 2, 1],
        57 => [3, 1, 2, 1, 1, 3],
        58 => [3, 1, 2, 3, 1, 1],
        59 => [3, 3, 2, 1, 1, 1],
        60 => [3, 1, 4, 1, 1, 1],
        61 => [2, 2, 1, 4, 1, 1],
        62 => [4, 3, 1, 1, 1, 1],
        63 => [1, 1, 1, 2, 2, 4],
        64 => [1, 1, 1, 4, 2, 2],
        65 => [1, 2, 1, 1, 2, 4],
        66 => [1, 2, 1, 4, 2, 1],
        67 => [1, 4, 1, 1, 2, 2],
        68 => [1, 4, 1, 2, 2, 1],
        69 => [1, 1, 2, 2, 1, 4],
        70 => [1, 1, 2, 4, 1, 2],
        71 => [1, 2, 2, 1, 1, 4],
        72 => [1, 2, 2, 4, 1, 1],
        73 => [1, 4, 2, 1, 1, 2],
        74 => [1, 4, 2, 2, 1, 1],
        75 => [2, 4, 1, 2, 1, 1],
        76 => [2, 2, 1, 1, 1, 4],
        77 => [4, 1, 3, 1, 1, 1],
        78 => [2, 4, 1, 1, 1, 2],
        79 => [1, 3, 4, 1, 1, 1],
        80 => [1, 1, 1, 2, 4, 2],
        81 => [1, 2, 1, 1, 4, 2],
        82 => [1, 2, 1, 2, 4, 1],
        83 => [1, 1, 4, 2, 1, 2],
        84 => [1, 2, 4, 1, 1, 2],
        85 => [1, 2, 4, 2, 1, 1],
        86 => [4, 1, 1, 2, 1, 2],
        87 => [4, 2, 1, 1, 1, 2],
        88 => [4, 2, 1, 2, 1, 1],
        89 => [2, 1, 2, 1, 4, 1],
        90 => [2, 1, 4, 1, 2, 1],
        91 => [4, 1, 2, 1, 2, 1],
        92 => [1, 1, 1, 1, 4, 3],
        93 => [1, 1, 1, 3, 4, 1],
        94 => [1, 3, 1, 1, 4, 1],
        95 => [1, 1, 4, 1, 1, 3],
        96 => [1, 1, 4, 3, 1, 1],
        97 => [4, 1, 1, 1, 1, 3],
        98 => [4, 1, 1, 3, 1, 1],
        99 => [1, 1, 3, 1, 4, 1],
        100 => [1, 1, 4, 1, 3, 1],
        101 => [3, 1, 1, 1, 4, 1],
        102 => [4, 1, 1, 1, 3, 1],
        103 => [2, 1, 1, 4, 1, 2],
        104 => [2, 1, 1, 2, 1, 4],
        105 => [2, 1, 1, 2, 3, 2],
        106 => [2, 3, 3, 1, 1, 1],
        107 => [2, 1, 1, 1, 3, 2],
        _ => [0, 0, 0, 0, 0, 0],
    };
    assert(p@ =~= pattern(code));
    p
}

/// Modules for alternating bars and spaces of the given widths, starting with `bar`.
pub open spec fn bars(widths: Seq<u8>, bar: bool) -> Seq<bool>
    decreases widths.len(),
{
    if widths.len() == 0 {
        seq![]
    } else {
        Seq::new(widths[0] as nat, |_i: int| bar) + bars(widths.drop_first(), !bar)
    }
}

/// The modules of the symbol characters `codes`, one after the other.
pub open spec fn symbol_bars(codes: Seq<u8>) -> Seq<bool>
    decreases codes.len(),
{
    if codes.len() == 0 {
        seq![]
    } else {
        symbol_bars(codes.drop_last()) + bars(pattern(codes.last()), true)
    }
}

/// Ten modules of quiet zone.
pub open spec fn quiet_zone() -> Seq<bool> {
    Seq::new(10, |_i: int| false)
}

/// The modules of a barcode whose symbol characters are `codes`: quiet zone, every code
/// but the last, the stop pattern in place of the last, quiet zone.
pub open spec fn barcode_modules(codes: Seq<u8>) -> Seq<bool> {
    quiet_zone() + symbol_bars(codes.drop_last()) + bars(stop_pattern(), true) + quiet_zone()
}

proof fn lemma_bars_step(widths: Seq<u8>, k: int, bar: bool)
    requires
        0 <= k < widths.len(),
    ensures
        bars(widths.skip(k), bar) == Seq::new(widths[k] as nat, |_i: int| bar) + bars(widths.skip(k + 1), !bar),
{
    assert(widths.skip(k).drop_first() =~= widths.skip(k + 1));
}

/// Appends the modules of alternating bars and spaces of the given widths, bar first.
fn push_bars(modules: &mut Vec<bool>, widths: &[u8])
    ensures
        final(modules)@ == old(modules)@ + bars(widths@, true),
{
    let mut bar = true;
    let mut k: usize = 0;
    assert(widths@.skip(0) =~= widths@);
    while k < widths.len()
        invariant
            k <= widths@.len(),
            old(modules)@ + bars(widths@, true) == modules@ + bars(widths@.skip(k as int), bar),
        decreases widths@.len() - k,
    {
        proof {
            lemma_bars_step(widths@, k as int, bar);
        }
        let w = widths[k];
        let ghost before = modules@;
        let mut j: u8 = 0;
        while j < w
            invariant
                j <= w,
                modules@ == before + Seq::new(j as nat, |_i: int| bar),
            decreases w - j,
        {
            modules.push(bar);
            j = j + 1;
            assert(modules@ =~= before + Seq::new(j as nat, |_i: int| bar));
        }
        bar = !bar;
        k = k + 1;
        assert(old(modules)@ + bars(widths@, true) =~= modules@ + bars(widths@.skip(k as int), bar));
    }
    assert(widths@.skip(k as int) =~= Seq::<u8>::empty());
    assert(modules@ =~= modules@ + bars(widths@.skip(k as int), bar));
}

/// The modules of a barcode whose symbol characters are `codes`, the last of which stands
/// for the stop pattern.
pub fn encode_pattern(codes: &[u8]) -> (modules: Vec<bool>)
    requires
        codes@.len() >= 1,
        forall|i: int| 0 <= i < codes@.len() - 1 ==> #[trigger] codes@[i] < 108,
    ensures
        modules@ == barcode_modules(codes@),
{
    let mut modules: Vec<bool> = Vec::new();
    let mut q: usize = 0;
    while q < 10
        invariant
            q <= 10,
            modules@ == Seq::new(q as nat, |_i: int| false),
        decreases 10 - q,
    {
        modules.push(false);
        q = q + 1;
        assert(modules@ =~= Seq::new(q as nat, |_i: int| false));
    }
    let n = codes.len() - 1;
    let mut i: usize = 0;
    while i < n
        invariant
            i <= n,
            n == codes@.len() - 1,
            forall|k: int| 0 <= k < codes@.len() - 1 ==> #[trigger] codes@[k] < 108,
            modules@ == quiet_zone() + symbol_bars(codes@.take(i as int)),
        decreases n - i,
    {
        let p = code_pattern(codes[i]);
        push_bars(&mut modules, &p);
        assert(codes@.take(i + 1).drop_last() =~= codes@.take(i as int));
        i = i + 1;
    }
    assert(codes@.take(n as int) =~= codes@.drop_last());
    let stop: [u8; 7] = [2, 3, 3, 1, 1, 1, 2];
    assert(stop@ =~= stop_pattern());
    push_bars(&mut modules, &stop);
    let ghost before = modules@;
    let mut q: usize = 0;
    while q < 10
        invariant
            q <= 10,
            modules@ == before + Seq::new(q as nat, |_i: int| false),
        decreases 10 - q,
    {
        modules.push(false);
        q = q + 1;
        assert(modules@ =~= before + Seq::new(q as nat, |_i: int| false));
    }
    assert(modules@ =~= barcode_modules(codes@));
    modules
}

/// `img` shows `modules` as bars: each module `bar_width` pixels wide and the image
/// `height` pixels high, black for a set module and white otherwise.
pub open spec fn draws_bars(img: RgbaImage, modules: Seq<bool>, bar_width: int, height: int) -> bool {
    &&& image_size(img) == ((modules.len() * bar_width) as u32, height as u32)
    &&& forall|x: u32, y: u32|
        x < modules.len() * bar_width && y < height ==> #[trigger] pixel_at(img, x, y) == if modules[x as int / bar_width] {
            COLOR_BLACK
        } else {
            COLOR_WHITE
        }
}

/// Wider bars give a wider picture of the same barcode, and a greater height a taller
/// one: the picture is as wide as the modules times the bar width, and as high as asked.
pub proof fn wider_bars_give_wider_picture(
    modules: Seq<bool>,
    narrow: RgbaImage,
    narrow_width: int,
    narrow_height: int,
    wide: RgbaImage,
    wide_width: int,
    wide_height: int,
)
    requires
        modules.len() > 0,
        1 <= narrow_width < wide_width,
        1 <= narrow_height,
        1 <= wide_height,
        bars_drawable(modules.len() as int, wide_width, wide_height),
        bars_drawable(modules.len() as int, narrow_width, narrow_height),
        draws_bars(narrow, modules, narrow_width, narrow_height),
        draws_bars(wide, modules, wide_width, wide_height),
    ensures
        image_size(narrow).0 < image_size(wide).0,
        narrow_height < wide_height ==> image_size(narrow).1 < image_size(wide).1,
{
    assert(modules.len() * narrow_width < modules.len() * wide_width) by (nonlinear_arith)
        requires modules.len() > 0, narrow_width < wide_width;
    assert(modules.len() * narrow_width >= 0) by (nonlinear_arith)
        requires modules.len() > 0, narrow_width >= 1;
}

/// The bars can be drawn: the image size fits in `u32` and in memory.
pub open spec fn bars_drawable(module_count: int, bar_width: int, height: int) -> bool {
    &&& module_count * bar_width <= u32::MAX
    &&& height <= u32::MAX
    &&& allocatable((module_count * bar_width) as u32, height as u32)
}

/// Draws one row of modules as bars `bar_width` pixels wide and `height` pixels high.
pub fn render_bars(modules: &Vec<bool>, bar_width: u32, height: u32) -> (img: RgbaImage)
    requires
        bar_width >= 1,
        bars_drawable(modules@.len() as int, bar_width as int, height as int),
    ensures
        draws_bars(img, modules@, bar_width as int, height as int),
{
    proof {
        assert(modules@.len() <= modules@.len() * bar_width) by (nonlinear_arith) requires bar_width >= 1;
    }
    let w: u32 = modules.len() as u32 * bar_width;
    let mut img = RgbaImage::from_pixel(w, height, COLOR_WHITE);
    let mut y: u32 = 0;
    while y < height
        invariant
            bar_width >= 1,
            w == modules@.len() * bar_width,
            image_size(img) == (w, height),
            y <= height,
            forall|px: u32, py: u32|
                px < w && py < height ==> #[trigger] pixel_at(img, px, py) == if py < y && modules@[px as int / bar_width as int] {
                    COLOR_BLACK
                } else {
                    COLOR_WHITE
                },
        decreases height - y,
    {
        let mut x: u32 = 0;
        while x < w
            invariant
                bar_width >= 1,
                w == modules@.len() * bar_width,
                image_size(img) == (w, height),
                y < height,
                x <= w,
                forall|px: u32, py: u32|
                    px < w && py < height ==> #[trigger] pixel_at(img, px, py) == if (py < y || (py == y && px < x))
                        && modules@[px as int / bar_width as int] {
                        COLOR_BLACK
                    } else {
                        COLOR_WHITE
                    },
            decreases w - x,
        {
            proof {
                vstd::arithmetic::mul::lemma_mul_is_commutative(modules@.len() as int, bar_width as int);
                vstd::arithmetic::div_mod::lemma_multiply_divide_lt(x as int, bar_width as int, modules@.len() as int);
            }
            if modules[(x / bar_width) as usize] {
                let ghost prev = img;
                img.put_pixel(x, y, COLOR_BLACK);
                assert forall|px: u32, py: u32| px < w && py < height && (px, py) != (x, y) implies #[trigger] pixel_at(img, px, py)
                    == pixel_at(prev, px, py) by {
                    assert(image_contents(img)[(px, py)] == image_contents(prev)[(px, py)]);
                }
            }
            x = x + 1;
        }
        y = y + 1;
    }
    img
}

/// The weight of the code at position `k` in the checksum: the start code counts once,
/// every later code by its position.
pub open spec fn weight(k: int) -> int {
    if k == 0 {
        1
    } else {
        k
    }
}

/// The weighted sum of `codes` that the check character is taken from.
pub open spec fn weighted_sum(codes: Seq<u8>) -> int
    decreases codes.len(),
{
    if codes.len() == 0 {
        0
    } else {
        weighted_sum(codes.drop_last()) + codes.last() * weight(codes.len() - 1)
    }
}

proof fn lemma_weighted_sum_prefix(codes: Seq<u8>, k: int)
    requires
        0 <= k <= codes.len(),
    ensures
        0 <= weighted_sum(codes.take(k)) <= weighted_sum(codes),
    decreases codes.len(),
{
    if codes.len() > 0 {
        if k == codes.len() {
            assert(codes.take(k) =~= codes);
            lemma_weighted_sum_prefix(codes.drop_last(), k - 1);
            assert(codes.drop_last().take(k - 1) =~= codes.drop_last());
            assert(codes.last() * weight(codes.len() - 1) >= 0) by (nonlinear_arith)
                requires codes.len() >= 1, codes.last() >= 0;
        } else {
            lemma_weighted_sum_prefix(codes.drop_last(), k);
            assert(codes.drop_last().take(k) =~= codes.take(k));
            assert(codes.last() * weight(codes.len() - 1) >= 0) by (nonlinear_arith)
                requires codes.len() >= 1, codes.last() >= 0;
        }
    } else {
        assert(codes.take(k) =~= codes);
    }
}

/// `codes` followed by their check character and the stop code.
pub open spec fn with_check(codes: Seq<u8>) -> Seq<u8> {
    codes + seq![(weighted_sum(codes) % 103) as u8, STOP]
}

/// The check character is the weighted sum of the codes modulo 103: `with_check` keeps
/// the codes, then puts a character below 103 that differs from their weighted sum (start
/// code weight one, the code at position `k` weight `k`) by a multiple of 103, then the
/// stop code.
pub proof fn check_character_is_weighted_sum_mod_103(codes: Seq<u8>)
    ensures
        with_check(codes).len() == codes.len() + 2,
        with_check(codes).take(codes.len() as int) == codes,
        with_check(codes)[codes.len() as int] < 103,
        (weighted_sum(codes) - with_check(codes)[codes.len() as int]) % 103 == 0,
        with_check(codes)[codes.len() as int + 1] == STOP,
{
    let w = weighted_sum(codes);
    lemma_weighted_sum_prefix(codes, codes.len() as int);
    assert(codes.take(codes.len() as int) =~= codes);
    assert(with_check(codes).take(codes.len() as int) =~= codes);
    assert((w % 103) as u8 == w % 103);
    vstd::arithmetic::div_mod::lemma_fundamental_div_mod(w, 103);
    assert((w - w % 103) == 103 * (w / 103));
    vstd::arithmetic::div_mod::lemma_mod_multiples_basic(w / 103, 103);
    assert((103 * (w / 103)) % 103 == 0) by {
        vstd::arithmetic::mul::lemma_mul_is_commutative(103, w / 103);
    }
}

/// The low byte of a character's code point.
pub open spec fn low_byte(c: char) -> int {
    (c as u32 as int) % 256
}

fn low_byte_exec(c: char) -> (b: u8)
    ensures
        b == low_byte(c),
{
    ((c as u32) % 256) as u8
}

/// The code set B value of a character: printable ASCII maps to its offset from the space,
/// anything else to 0.
pub open spec fn code_b(c: char) -> u8 {
    let b = low_byte(c);
    if 32 <= b <= 127 {
        (b - 32) as u8
    } else {
        0
    }
}

/// The code set A value of a character: upper-case ASCII and punctuation map to their
/// offset from the space, control characters after them, anything else to 0.
pub open spec fn code_a(c: char) -> u8 {
    let b = low_byte(c);
    if 32 <= b <= 95 {
        (b - 32) as u8
    } else if b < 32 {
        (b + 64) as u8
    } else {
        0
    }
}

/// The code of a character in automatic mode: the FNC1 escape or code set B.
pub open spec fn auto_code(c: char) -> u8 {
    if c == ESCAPE_FNC_1 {
        FNC_1
    } else {
        code_b(c)
    }
}

/// The codes of `chars` in automatic mode, after the code set B start code.
pub open spec fn auto_codes(chars: Seq<char>) -> Seq<u8> {
    seq![CODE_B_START] + chars.map_values(|c: char| auto_code(c))
}

/// The characters of a string.
pub fn chars_of(s: &str) -> (v: Vec<char>)
    ensures
        v@ == s@,
{
    let mut v: Vec<char> = Vec::new();
    for ch in it: s.chars()
        invariant
            v@ == it.seq().take(it.index() as int),
            it.seq() == s@,
    {
        v.push(ch);
    }
    v
}

fn code_b_exec(c: char) -> (code: u8)
    ensures
        code == code_b(c),
{
    let b = low_byte_exec(c);
    if b >= 32 && b <= 127 {
        b - 32
    } else {
        0
    }
}

fn code_a_exec(c: char) -> (code: u8)
    ensures
        code == code_a(c),
{
    let b = low_byte_exec(c);
    if b >= 32 && b <= 95 {
        b - 32
    } else if b < 32 {
        b + 64
    } else {
        0
    }
}

/// The codes of `content` in automatic mode, code set B start code first.
pub fn auto_codes_of(content: &str) -> (codes: Vec<u8>)
    ensures
        codes@ == auto_codes(content@),
{
    let chars = chars_of(content);
    let ghost all = auto_codes(content@);
    let mut codes: Vec<u8> = Vec::new();
    codes.push(CODE_B_START);
    assert(codes@ =~= all.take(1));
    let mut i: usize = 0;
    while i < chars.len()
        invariant
            i <= chars@.len(),
            chars@ == content@,
            all == auto_codes(content@),
            codes@ == all.take(i + 1),
        decreases chars@.len() - i,
    {
        let ch = chars[i];
        let code = if ch == ESCAPE_FNC_1 {
            FNC_1
        } else {
            code_b_exec(ch)
        };
        codes.push(code);
        assert(codes@ =~= all.take(i + 2));
        i = i + 1;
    }
    assert(codes@ =~= all);
    codes
}

/// The weighted sum of `codes`, which must fit in `u32`, summed in `u32`.
fn weighted_checksum(codes: &Vec<u8>) -> (sum: u32)
    requires
        codes@.len() <= u32::MAX,
        weighted_sum(codes@) <= u32::MAX,
    ensures
        sum == weighted_sum(codes@),
{
    let mut sum: u32 = 0;
    let mut i: usize = 0;
    assert(codes@.take(0) =~= Seq::<u8>::empty());
    while i < codes.len()
        invariant
            i <= codes@.len(),
            codes@.len() <= u32::MAX,
            weighted_sum(codes@) <= u32::MAX,
            sum == weighted_sum(codes@.take(i as int)),
        decreases codes@.len() - i,
    {
        proof {
            lemma_weighted_sum_prefix(codes@, i + 1);
            assert(codes@.take(i + 1).drop_last() =~= codes@.take(i as int));
        }
        let w: u32 = if i == 0 {
            1
        } else {
            i as u32
        };
        sum = sum + codes[i] as u32 * w;
        i = i + 1;
    }
    assert(codes@.take(codes@.len() as int) =~= codes@);
    sum
}

/// The weighted sum of `codes` when it fits in `u32`, `None` when it does not.
pub fn weighted_sum_within_u32(codes: &Vec<u8>) -> (sum: Option<u32>)
    requires
        codes@.len() <= u32::MAX,
    ensures
        sum is Some <==> weighted_sum(codes@) <= u32::MAX,
        sum matches Some(v) ==> v == weighted_sum(codes@),
{
    let mut sum: u64 = 0;
    let mut i: usize = 0;
    assert(codes@.take(0) =~= Seq::<u8>::empty());
    while i < codes.len()
        invariant
            i <= codes@.len(),
            codes@.len() <= u32::MAX,
            sum == weighted_sum(codes@.take(i as int)),
            sum <= u32::MAX,
        decreases codes@.len() - i,
    {
        proof {
            assert(codes@.take(i + 1).drop_last() =~= codes@.take(i as int));
            lemma_weighted_sum_prefix(codes@, i + 1);
        }
        let w: u64 = if i == 0 {
            1
        } else {
            i as u64
        };
        assert(codes[i as int] as u64 * w <= 255 * 0xffff_ffff) by (nonlinear_arith)
            requires codes[i as int] <= 255, w <= 0xffff_ffff;
        let next = sum + codes[i] as u64 * w;
        assert(next == weighted_sum(codes@.take(i + 1)));
        if next > 0xffff_ffff {
            return None;
        }
        sum = next;
        i = i + 1;
    }
    assert(codes@.take(codes@.len() as int) =~= codes@);
    Some(sum as u32)
}

/// `codes` followed by their check character and the stop code.
fn append_check(codes: &Vec<u8>, checksum: u32) -> (all: Vec<u8>)
    requires
        checksum == weighted_sum(codes@),
    ensures
        all@ == with_check(codes@),
{
    let mut all = codes.clone();
    all.push((checksum % 103) as u8);
    all.push(STOP);
    assert(all@ =~= with_check(codes@));
    all
}

/// The size of the picture of the Code 128 barcode with `codes` (start code first, check
/// character not yet added), bars `bar_width` pixels wide and `height` pixels high (each at
/// least one), when its checksum fits in `u32` and the picture can be drawn.
pub fn bars_size(codes: &Vec<u8>, height: i32, bar_width: i32) -> (size: Option<(u32, u32)>)
    requires
        1 <= codes@.len() <= u32::MAX,
        forall|k: int| 0 <= k < codes@.len() ==> #[trigger] codes@[k] < 108,
    ensures
        size is Some <==> weighted_sum(codes@) <= u32::MAX && bars_drawable(
            barcode_modules(with_check(codes@)).len() as int,
            at_least_one(bar_width),
            at_least_one(height),
        ),
        size matches Some((w, h)) ==> w == barcode_modules(with_check(codes@)).len() * at_least_one(bar_width) && h
            == at_least_one(height),
{
    let checksum = match weighted_sum_within_u32(codes) {
        Some(v) => v,
        None => {
            return None;
        },
    };
    let all = append_check(codes, checksum);
    let modules = encode_pattern(all.as_slice());
    let bw: u128 = if bar_width < 1 {
        1
    } else {
        bar_width as u128
    };
    let h: u128 = if height < 1 {
        1
    } else {
        height as u128
    };
    let count = modules.len();
    assert(count as u128 * bw <= 0xffff_ffff_ffff_ffff * 0x7fff_ffff) by (nonlinear_arith)
        requires count <= 0xffff_ffff_ffff_ffff, bw <= 0x7fff_ffff;
    let w: u128 = count as u128 * bw;
    if w > 0xffff_ffff {
        return None;
    }
    assert(w * h * 4 <= 0xffff_ffff * 0x7fff_ffff * 4) by (nonlinear_arith)
        requires w <= 0xffff_ffff, h <= 0x7fff_ffff;
    if w * h * 4 > isize::MAX as u128 {
        return None;
    }
    Some((w as u32, h as u32))
}

/// Code 128 in automatic mode: code set B start, one code per character (the FNC1 escape
/// as FNC1), the check character and the stop pattern, drawn as bars `bar_width` pixels
/// wide (at least one) and `height` pixels high (at least one).
pub fn encode_auto(content: &str, height: i32, bar_width: i32) -> (res: Result<RgbaImage, String>)
    requires
        content@.len() < u32::MAX,
        weighted_sum(auto_codes(content@)) <= u32::MAX,
        bars_drawable(
            barcode_modules(with_check(auto_codes(content@))).len() as int,
            at_least_one(bar_width),
            at_least_one(height),
        ),
    ensures
        res matches Ok(img) && draws_bars(
            img,
            barcode_modules(with_check(auto_codes(content@))),
            at_least_one(bar_width),
            at_least_one(height),
        ),
{
    let codes = auto_codes_of(content);
    let checksum = weighted_checksum(&codes);
    let all = append_check(&codes, checksum);
    proof {
        assert forall|k: int| 0 <= k < all@.len() - 1 implies #[trigger] all@[k] < 108 by {
            if k >= 1 && k < codes@.len() {
                assert(all@[k] == auto_code(content@[k - 1]));
            }
        }
    }
    let modules = encode_pattern(all.as_slice());
    let bw: u32 = if bar_width < 1 {
        1
    } else {
        bar_width as u32
    };
    let h: u32 = if height < 1 {
        1
    } else {
        height as u32
    };
    Ok(render_bars(&modules, bw, h))
}

/// The size of the automatic-mode picture of `content` (see `encode_auto`), `None` when
/// `encode_auto` cannot take it.
pub fn auto_size(content: &str, height: i32, bar_width: i32) -> (size: Option<(u32, u32)>)
    ensures
        size is Some <==> content@.len() < u32::MAX && weighted_sum(auto_codes(content@)) <= u32::MAX && bars_drawable(
            barcode_modules(with_check(auto_codes(content@))).len() as int,
            at_least_one(bar_width),
            at_least_one(height),
        ),
        size matches Some((w, h)) ==> w == barcode_modules(with_check(auto_codes(content@))).len() * at_least_one(
            bar_width,
        ) && h == at_least_one(height),
{
    let codes = auto_codes_of(content);
    if codes.len() > 0xffff_ffff {
        return None;
    }
    proof {
        assert forall|k: int| 0 <= k < codes@.len() implies #[trigger] codes@[k] < 108 by {
            if k >= 1 {
                assert(codes@[k] == auto_code(content@[k - 1]));
            }
        }
    }
    bars_size(&codes, height, bar_width)
}

/// `v` when it is at least one, otherwise one.
pub open spec fn at_least_one(v: i32) -> int {
    if v < 1 {
        1
    } else {
        v as int
    }
}

/// A Code 128 code set.
#[derive(Clone, Copy, PartialEq, Eq, Debug, Structural)]
pub enum CodeSet {
    A,
    B,
    C,
}

/// The code set that the two-character sequence `>` `c` selects.
pub open spec fn selected_set(c: char) -> Option<CodeSet> {
    if c == ':' {
        Some(CodeSet::C)
    } else if c == ';' {
        Some(CodeSet::B)
    } else if c == '9' || c == '0' {
        Some(CodeSet::A)
    } else {
        None
    }
}

pub open spec fn is_digit(c: char) -> bool {
    '0' <= c <= '9'
}

/// The value of the digit pair `c1` `c2`.
pub open spec fn digit_pair(c1: char, c2: char) -> u8 {
    ((c1 as int - 48) * 10 + (c2 as int - 48)) as u8
}

/// The codes and the human-readable characters that the content `chars` gives from
/// position `i` on in code set `set`: `>:`, `>;`, `>9` and `>0` switch to code sets C, B
/// and A, `>8` gives FNC1; in code set C a digit pair gives one code; any other character
/// gives its code set A or B value (set B's in code set C) and appears in the text.
pub open spec fn no_mode_data(chars: Seq<char>, i: int, set: CodeSet) -> (Seq<u8>, Seq<char>)
    decreases chars.len() - i,
{
    if i < 0 || i >= chars.len() {
        (seq![], seq![])
    } else if chars[i] == '>' && i + 1 < chars.len() && (selected_set(chars[i + 1]) is Some || chars[i + 1] == '8') {
        if chars[i + 1] == '8' {
            let rest = no_mode_data(chars, i + 2, set);
            (seq![FNC_1] + rest.0, rest.1)
        } else {
            no_mode_data(chars, i + 2, selected_set(chars[i + 1]).unwrap())
        }
    } else if set == CodeSet::C && i + 1 < chars.len() && is_digit(chars[i]) && is_digit(chars[i + 1]) {
        let rest = no_mode_data(chars, i + 2, set);
        (seq![digit_pair(chars[i], chars[i + 1])] + rest.0, seq![chars[i], chars[i + 1]] + rest.1)
    } else {
        let code = if set == CodeSet::A {
            code_a(chars[i])
        } else {
            code_b(chars[i])
        };
        let rest = no_mode_data(chars, i + 1, set);
        (seq![code] + rest.0, seq![chars[i]] + rest.1)
    }
}

/// The start code, the first position and the code set of the content `chars` in no-mode:
/// a leading `>:`, `>;`, `>9` or `>0` picks the start code, otherwise code set B.
pub open spec fn no_mode_start(chars: Seq<char>) -> (u8, int, CodeSet) {
    if chars.len() > 1 && chars[0] == '>' && selected_set(chars[1]) is Some {
        let set = selected_set(chars[1]).unwrap();
        let start = if set == CodeSet::C {
            CODE_C_START
        } else if set == CodeSet::B {
            CODE_B_START
        } else {
            CODE_A_START
        };
        (start, 2, set)
    } else {
        (CODE_B_START, 0, CodeSet::B)
    }
}

/// The codes of the content `chars` in no-mode, start code first.
pub open spec fn no_mode_codes(chars: Seq<char>) -> Seq<u8> {
    let (start, i, set) = no_mode_start(chars);
    seq![start] + no_mode_data(chars, i, set).0
}

/// The human-readable text of the content `chars` in no-mode.
pub open spec fn no_mode_text(chars: Seq<char>) -> Seq<char> {
    let (start, i, set) = no_mode_start(chars);
    no_mode_data(chars, i, set).1
}

proof fn lemma_no_mode_len(chars: Seq<char>, i: int, set: CodeSet)
    requires
        0 <= i,
    ensures
        no_mode_data(chars, i, set).0.len() <= if i >= chars.len() {
            0
        } else {
            chars.len() - i
        },
        forall|k: int| 0 <= k < no_mode_data(chars, i, set).0.len() ==> #[trigger] no_mode_data(chars, i, set).0[k] < 108,
    decreases chars.len() - i,
{
    if i < chars.len() {
        if chars[i] == '>' && i + 1 < chars.len() && (selected_set(chars[i + 1]) is Some || chars[i + 1] == '8') {
            if chars[i + 1] == '8' {
                lemma_no_mode_len(chars, i + 2, set);
            } else {
                lemma_no_mode_len(chars, i + 2, selected_set(chars[i + 1]).unwrap());
            }
        } else if set == CodeSet::C && i + 1 < chars.len() && is_digit(chars[i]) && is_digit(chars[i + 1]) {
            lemma_no_mode_len(chars, i + 2, set);
        } else {
            lemma_no_mode_len(chars, i + 1, set);
        }
    }
}

/// `String::from_iter` over characters.
#[verifier::external_body]
fn string_from_chars(chars: Vec<char>) -> (s: String)
    ensures
        s@ == chars@,
{
    String::from_iter(chars)
}

/// The codes (start code first, check character not yet added) and the human-readable
/// characters of `content` in no-mode.
pub fn no_mode_parts(content: &str) -> (parts: (Vec<u8>, Vec<char>))
    ensures
        parts.0@ == no_mode_codes(content@),
        parts.1@ == no_mode_text(content@),
{
    let chars = chars_of(content);
    let ghost cs = content@;
    let mut codes: Vec<u8> = Vec::new();
    let mut text: Vec<char> = Vec::new();
    let mut current_set = CodeSet::B;
    let mut i: usize = 0;
    let start_code = if chars.len() > 1 && chars[0] == '>' {
        let c1 = chars[1];
        if c1 == ':' {
            i = 2;
            current_set = CodeSet::C;
            CODE_C_START
        } else if c1 == ';' {
            i = 2;
            current_set = CodeSet::B;
            CODE_B_START
        } else if c1 == '9' || c1 == '0' {
            i = 2;
            current_set = CodeSet::A;
            CODE_A_START
        } else {
            CODE_B_START
        }
    } else {
        CODE_B_START
    };
    assert(no_mode_start(cs) == (start_code, i as int, current_set));
    codes.push(start_code);
    let ghost all = no_mode_codes(cs);
    while i < chars.len()
        invariant
            chars@ == cs,
            cs == content@,
            all == no_mode_codes(cs),
            0 <= i <= chars@.len(),
            codes@ + no_mode_data(cs, i as int, current_set).0 == all,
            text@ + no_mode_data(cs, i as int, current_set).1 == no_mode_text(cs),
        decreases chars@.len() - i,
    {
        let ghost rest_before = no_mode_data(cs, i as int, current_set);
        let mut handled = false;
        if chars[i] == '>' && i + 1 < chars.len() {
            let c1 = chars[i + 1];
            if c1 == ':' {
                current_set = CodeSet::C;
                i = i + 2;
                handled = true;
            } else if c1 == ';' {
                current_set = CodeSet::B;
                i = i + 2;
                handled = true;
            } else if c1 == '9' || c1 == '0' {
                current_set = CodeSet::A;
                i = i + 2;
                handled = true;
            } else if c1 == '8' {
                codes.push(FNC_1);
                i = i + 2;
                handled = true;
                assert(codes@ + no_mode_data(cs, i as int, current_set).0 =~= all);
            }
        }
        if !handled {
            let ch = chars[i];
            let code: u8 = if current_set == CodeSet::C {
                if i + 1 < chars.len() && ch >= '0' && ch <= '9' && chars[i + 1] >= '0' && chars[i + 1] <= '9' {
                    let c2 = chars[i + 1];
                    let val = (low_byte_exec(ch) - 48) * 10 + (low_byte_exec(c2) - 48);
                    text.push(ch);
                    text.push(c2);
                    i = i + 1;
                    val
                } else {
                    text.push(ch);
                    code_b_exec(ch)
                }
            } else if current_set == CodeSet::A {
                text.push(ch);
                code_a_exec(ch)
            } else {
                text.push(ch);
                code_b_exec(ch)
            };
            codes.push(code);
            i = i + 1;
            assert(codes@ + no_mode_data(cs, i as int, current_set).0 =~= all);
        }
        assert(text@ + no_mode_data(cs, i as int, current_set).1 =~= no_mode_text(cs));
    }
    assert(codes@ =~= all);
    (codes, text)
}

/// The codes of `content` in no-mode: fewer than the characters plus one, each a symbol
/// character below 108.
proof fn lemma_no_mode_codes_bounds(cs: Seq<char>)
    ensures
        1 <= no_mode_codes(cs).len() <= cs.len() + 1,
        forall|k: int| 0 <= k < no_mode_codes(cs).len() ==> #[trigger] no_mode_codes(cs)[k] < 108,
{
    let (s0, i0, set0) = no_mode_start(cs);
    lemma_no_mode_len(cs, i0, set0);
    assert forall|k: int| 0 <= k < no_mode_codes(cs).len() implies #[trigger] no_mode_codes(cs)[k] < 108 by {
        if k >= 1 {
            assert(no_mode_codes(cs)[k] == no_mode_data(cs, i0, set0).0[k - 1]);
        }
    }
}

/// The size of the no-mode picture of `content` (see `encode_no_mode`), `None` when
/// `encode_no_mode` cannot take it.
pub fn no_mode_size(content: &str, height: i32, bar_width: i32) -> (size: Option<(u32, u32)>)
    ensures
        size is Some <==> content@.len() < u32::MAX && weighted_sum(no_mode_codes(content@)) <= u32::MAX
            && bars_drawable(
            barcode_modules(with_check(no_mode_codes(content@))).len() as int,
            at_least_one(bar_width),
            at_least_one(height),
        ),
        size matches Some((w, h)) ==> w == barcode_modules(with_check(no_mode_codes(content@))).len() * at_least_one(
            bar_width,
        ) && h == at_least_one(height),
{
    let chars = chars_of(content);
    if chars.len() >= 0xffff_ffff {
        return None;
    }
    let (codes, _text) = no_mode_parts(content);
    proof {
        lemma_no_mode_codes_bounds(content@);
    }
    bars_size(&codes, height, bar_width)
}

/// Code 128 without a mode: `>:`, `>;`, `>9`/`>0` select code sets C, B and A (a leading
/// one picks the start code), `>8` inserts FNC1 and code set C packs digit pairs. Gives
/// the bars, drawn `bar_width` pixels wide (at least one) and `height` pixels high (at
/// least one), and the human-readable text.
pub fn encode_no_mode(content: &str, height: i32, bar_width: i32) -> (res: Result<(RgbaImage, String), String>)
    requires
        content@.len() < u32::MAX,
        weighted_sum(no_mode_codes(content@)) <= u32::MAX,
        bars_drawable(
            barcode_modules(with_check(no_mode_codes(content@))).len() as int,
            at_least_one(bar_width),
            at_least_one(height),
        ),
    ensures
        res matches Ok((img, text)) && draws_bars(
            img,
            barcode_modules(with_check(no_mode_codes(content@))),
            at_least_one(bar_width),
            at_least_one(height),
        ) && text@ == no_mode_text(content@),
{
    let (codes, text) = no_mode_parts(content);
    proof {
        lemma_no_mode_codes_bounds(content@);
    }
    let checksum = weighted_checksum(&codes);
    let all = append_check(&codes, checksum);
    let modules = encode_pattern(all.as_slice());
    let bw: u32 = if bar_width < 1 {
        1
    } else {
        bar_width as u32
    };
    let h: u32 = if height < 1 {
        1
    } else {
        height as u32
    };
    let img = render_bars(&modules, bw, h);
    Ok((img, string_from_chars(text)))
}

} // verus!
