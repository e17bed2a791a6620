use vstd::prelude::*;

use super::{bits_of, bytes_to_bits, draws_grid, grid_drawable, grid_image_side, grid_picture_side, lemma_drawable_grid_small, new_grid, render_module_grid, set_module, square_grid};
use crate::images::RgbaImage;
use vstd::string::StringSliceAdditionalSpecFns;

verus! {

broadcast use vstd::string::group_string_axioms;

/// The number of data layers for `bit_count` content bits: the least `l` of at least one
/// whose square, times sixteen, reaches `bit_count` (that is, the ceiling of a quarter of
/// the square root), at most 32.
pub open spec fn layers_from(l: int, bit_count: int) -> int
    decreases 32 - l,
{
    if l >= 32 || 16 * l * l >= bit_count {
        l
    } else {
        layers_from(l + 1, bit_count)
    }
}

/// The number of data layers for `len` content bytes.
pub open spec fn layer_count(len: int) -> int {
    layers_from(1, len * 8)
}

proof fn lemma_layers_from_bounds(l: int, bit_count: int)
    requires
        1 <= l <= 32,
    ensures
        l <= layers_from(l, bit_count) <= 32,
    decreases 32 - l,
{
    if !(l >= 32 || 16 * l * l >= bit_count) {
        lemma_layers_from_bounds(l + 1, bit_count);
    }
}

/// The number of data layers lies between 1 and 32.
pub proof fn lemma_layer_count_bounds(len: int)
    ensures
        1 <= layer_count(len) <= 32,
{
    lemma_layers_from_bounds(1, len * 8);
}

/// The number of modules on each edge of a symbol with `layers` data layers: a compact
/// symbol (at most four layers) has a nine-module bullseye, a full one thirteen.
pub open spec fn symbol_side(layers: int) -> int {
    if layers <= 4 {
        9 + layers * 4
    } else {
        13 + layers * 4
    }
}

/// The distance, in rings, between the first data ring and the bullseye's centre.
pub open spec fn ring_offset(layers: int) -> int {
    if layers <= 4 {
        5
    } else {
        7
    }
}

pub open spec fn abs(x: int) -> int {
    if x < 0 {
        -x
    } else {
        x
    }
}

/// The ring on which `(r, c)` lies around `(center, center)`.
pub open spec fn ring_of(center: int, r: int, c: int) -> int {
    if abs(r - center) >= abs(c - center) {
        abs(r - center)
    } else {
        abs(c - center)
    }
}

/// The `p`-th module of the square outline from `(s, s)` to `(e, e)`, walked clockwise
/// from the top-left corner: the top edge left to right, the right edge downwards, the
/// bottom edge right to left and the left edge upwards.
pub open spec fn outline_at(s: int, e: int, p: int) -> (int, int) {
    let n = e - s;
    if p <= n {
        (s, s + p)
    } else if p <= 2 * n {
        (s + (p - n), e)
    } else if p <= 3 * n {
        (e, e - (p - 2 * n))
    } else {
        (e - (p - 3 * n), s)
    }
}

/// The number of modules on the outline from `(s, s)` to `(e, e)`.
pub open spec fn outline_len(s: int, e: int) -> int {
    if s > e {
        0
    } else if s == e {
        1
    } else {
        4 * (e - s)
    }
}

/// The position of `(r, c)` in the clockwise walk of the ring at distance `d` round
/// `(center, center)`.
pub open spec fn ring_index(center: int, d: int, r: int, c: int) -> int {
    let s = center - d;
    let e = center + d;
    if r == s {
        c - s
    } else if c == e {
        2 * d + (r - s)
    } else if r == e {
        4 * d + (e - c)
    } else {
        6 * d + (e - r)
    }
}

proof fn lemma_outline_on_ring(center: int, d: int, p: int)
    requires
        d >= 1,
        0 <= p < 8 * d,
    ensures
        ring_of(center, outline_at(center - d, center + d, p).0, outline_at(center - d, center + d, p).1) == d,
        ring_index(center, d, outline_at(center - d, center + d, p).0, outline_at(center - d, center + d, p).1) == p,
{
}

proof fn lemma_ring_index_inverse(center: int, d: int, r: int, c: int)
    requires
        d >= 1,
        ring_of(center, r, c) == d,
    ensures
        0 <= ring_index(center, d, r, c) < 8 * d,
        outline_at(center - d, center + d, ring_index(center, d, r, c)) == (r, c),
{
}

/// The modules of the outline from `(max(start, 0), max(start, 0))` to
/// `(min(end, side - 1), min(end, side - 1))`, walked clockwise from the top-left corner; a
/// negative `end`, read as an unsigned size, counts as past the grid.
pub fn get_ring_positions(start: i32, end: i32, side: usize) -> (positions: Vec<(usize, usize)>)
    requires
        side >= 1,
    ensures
        ({
            let s = if start < 0 {
                0
            } else {
                start as int
            };
            let e = if end < 0 || end as int > side - 1 {
                side - 1
            } else {
                end as int
            };
            &&& positions@.len() == outline_len(s, e)
            &&& forall|p: int|
                0 <= p < positions@.len() ==> (#[trigger] positions@[p]).0 as int == outline_at(s, e, p).0
                    && positions@[p].1 as int == outline_at(s, e, p).1
        }),
{
    let mut positions: Vec<(usize, usize)> = Vec::new();
    let s: usize = if start < 0 {
        0
    } else {
        start as usize
    };
    let e: usize = if end < 0 || end as usize > side - 1 {
        side - 1
    } else {
        end as usize
    };
    let ghost si = s as int;
    let ghost ei = e as int;
    if s > e {
        return positions;
    }
    // Top edge.
    let mut c = s;
    while c <= e
        invariant
            si <= c <= ei + 1,
            si == s,
            ei == e,
            e < side,
            positions@.len() == c - si,
            forall|p: int|
                0 <= p < positions@.len() ==> (#[trigger] positions@[p]).0 as int == outline_at(si, ei, p).0
                    && positions@[p].1 as int == outline_at(si, ei, p).1,
        decreases ei + 1 - c,
    {
        positions.push((s, c));
        c = c + 1;
    }
    // Right edge.
    let mut r = s + 1;
    while r <= e
        invariant
            si + 1 <= r <= ei + 1,
            si == s,
            ei == e,
            e < side,
            positions@.len() == (ei - si + 1) + (r - si - 1),
            forall|p: int|
                0 <= p < positions@.len() ==> (#[trigger] positions@[p]).0 as int == outline_at(si, ei, p).0
                    && positions@[p].1 as int == outline_at(si, ei, p).1,
        decreases ei + 1 - r,
    {
        positions.push((r, e));
        r = r + 1;
    }
    // Bottom edge.
    let mut c = e;
    while c > s
        invariant
            si <= c <= ei,
            si == s,
            ei == e,
            e < side,
            positions@.len() == 2 * (ei - si) + 1 + (ei - c),
            forall|p: int|
                0 <= p < positions@.len() ==> (#[trigger] positions@[p]).0 as int == outline_at(si, ei, p).0
                    && positions@[p].1 as int == outline_at(si, ei, p).1,
        decreases c,
    {
        c = c - 1;
        positions.push((e, c));
    }
    // Left edge.
    let mut r = e;
    while r > s + 1
        invariant
            si + 1 <= r <= ei || (si == ei && r == ei),
            si == s,
            ei == e,
            e < side,
            positions@.len() == 3 * (ei - si) + 1 + (ei - r),
            forall|p: int|
                0 <= p < positions@.len() ==> (#[trigger] positions@[p]).0 as int == outline_at(si, ei, p).0
                    && positions@[p].1 as int == outline_at(si, ei, p).1,
        decreases r,
    {
        r = r - 1;
        positions.push((r, s));
    }
    positions
}

/// `(r, c)` is dark in the finder part of the symbol: the centre, the first ring, the
/// ring at distance five of a full symbol, and the two orientation modules.
pub open spec fn finder_dark(layers: int, r: int, c: int) -> bool {
    let center = symbol_side(layers) / 2;
    let d = ring_of(center, r, c);
    d == 0 || d == 1 || (layers > 4 && d == 5) || (r == center - 5 && (c == center + 3 || c == center + 4))
}

/// `(r, c)` lies on one of the `layers` data rings.
pub open spec fn on_data_ring(layers: int, r: int, c: int) -> bool {
    let center = symbol_side(layers) / 2;
    let d = ring_of(center, r, c);
    let o = ring_offset(layers);
    d > o && (d - o - 1) % 2 == 0 && (d - o - 1) / 2 < layers
}

/// The number of data modules on the rings inside data ring `l`.
pub open spec fn ring_base(layers: int, l: int) -> int {
    8 * l * (ring_offset(layers) + l)
}

/// Module `(r, c)` of a symbol with `layers` data layers carrying `bits`: the finder,
/// then the bits ring by ring outwards, each ring walked clockwise from its top-left
/// corner, and a checkered fill once the bits run out.
pub open spec fn symbol_module(bits: Seq<bool>, layers: int, r: int, c: int) -> bool {
    let center = symbol_side(layers) / 2;
    let d = ring_of(center, r, c);
    if finder_dark(layers, r, c) {
        true
    } else if on_data_ring(layers, r, c) {
        let l = (d - ring_offset(layers) - 1) / 2;
        let idx = ring_base(layers, l) + ring_index(center, d, r, c);
        if idx < bits.len() {
            bits[idx]
        } else {
            (r + c) % 2 == 0
        }
    } else {
        false
    }
}

/// The module grid of the symbol carrying `bytes`.
pub open spec fn symbol_grid(bytes: Seq<u8>) -> Seq<Seq<bool>> {
    let layers = layer_count(bytes.len() as int);
    let side = symbol_side(layers);
    Seq::new(side as nat, |r: int| Seq::new(side as nat, |c: int| symbol_module(bits_of(bytes), layers, r, c)))
}

/// The magnification actually used: at least one pixel per module.
pub open spec fn effective_magnification(magnification: i32) -> int {
    if magnification < 1 {
        1
    } else {
        magnification as int
    }
}

/// The grid while data ring `layer` (at distance `d`) is being filled: the rings inside it
/// and its first `k` modules carry data, the rest shows the finder.
pub open spec fn filling(bits: Seq<bool>, layers: int, layer: int, d: int, k: int, grid: Seq<Seq<bool>>) -> bool {
    let side = symbol_side(layers);
    let center = side / 2;
    forall|r: int, c: int|
        0 <= r < side && 0 <= c < side ==> #[trigger] grid[r][c] == if on_data_ring(layers, r, c) && ((ring_of(
            center,
            r,
            c,
        ) - ring_offset(layers) - 1) / 2 < layer || (ring_of(center, r, c) == d && ring_index(center, d, r, c) < k)) {
            symbol_module(bits, layers, r, c)
        } else {
            finder_dark(layers, r, c)
        }
}

proof fn lemma_filling_step(
    bits: Seq<bool>,
    layers: int,
    layer: int,
    d: int,
    k: int,
    grid: Seq<Seq<bool>>,
    val: bool,
)
    requires
        1 <= layers <= 32,
        0 <= layer < layers,
        d == ring_offset(layers) + 1 + 2 * layer,
        0 <= k < 8 * d,
        square_grid(grid, symbol_side(layers)),
        filling(bits, layers, layer, d, k, grid),
        ({
            let center = symbol_side(layers) / 2;
            let rc = outline_at(center - d, center + d, k);
            let idx = ring_base(layers, layer) + k;
            val == if idx < bits.len() {
                bits[idx]
            } else {
                (rc.0 + rc.1) % 2 == 0
            }
        }),
    ensures
        ({
            let center = symbol_side(layers) / 2;
            let rc = outline_at(center - d, center + d, k);
            &&& 0 <= rc.0 < symbol_side(layers)
            &&& 0 <= rc.1 < symbol_side(layers)
            &&& filling(bits, layers, layer, d, k + 1, grid.update(rc.0, grid[rc.0].update(rc.1, val)))
        }),
{
    let side = symbol_side(layers);
    let center = side / 2;
    lemma_outline_on_ring(center, d, k);
    let rc = outline_at(center - d, center + d, k);
    let g2 = grid.update(rc.0, grid[rc.0].update(rc.1, val));
    assert(symbol_module(bits, layers, rc.0, rc.1) == val);
    assert forall|r: int, c: int| 0 <= r < side && 0 <= c < side implies #[trigger] g2[r][c] == if on_data_ring(layers, r, c)
        && ((ring_of(center, r, c) - ring_offset(layers) - 1) / 2 < layer || (ring_of(center, r, c) == d && ring_index(
        center,
        d,
        r,
        c,
    ) < k + 1)) {
        symbol_module(bits, layers, r, c)
    } else {
        finder_dark(layers, r, c)
    } by {
        if ring_of(center, r, c) == d {
            lemma_ring_index_inverse(center, d, r, c);
        }
    }
}

proof fn lemma_filling_layer_done(bits: Seq<bool>, layers: int, layer: int, d: int, grid: Seq<Seq<bool>>)
    requires
        1 <= layers <= 32,
        0 <= layer < layers,
        d == ring_offset(layers) + 1 + 2 * layer,
        filling(bits, layers, layer, d, 8 * d, grid),
    ensures
        filling(bits, layers, layer + 1, d + 2, 0, grid),
        ring_base(layers, layer) + 8 * d == ring_base(layers, layer + 1),
{
    let side = symbol_side(layers);
    let center = side / 2;
    assert(ring_base(layers, layer) + 8 * d == ring_base(layers, layer + 1)) by (nonlinear_arith)
        requires d == ring_offset(layers) + 1 + 2 * layer;
    assert forall|r: int, c: int| 0 <= r < side && 0 <= c < side implies #[trigger] grid[r][c] == if on_data_ring(layers, r, c)
        && ((ring_of(center, r, c) - ring_offset(layers) - 1) / 2 < layer + 1 || (ring_of(center, r, c) == d + 2 && ring_index(
        center,
        d + 2,
        r,
        c,
    ) < 0)) {
        symbol_module(bits, layers, r, c)
    } else {
        finder_dark(layers, r, c)
    } by {
        if ring_of(center, r, c) == d {
            lemma_ring_index_inverse(center, d, r, c);
        }
    }
}

/// Module `(r, c)` is on the outline from `(start, start)` to `(end, end)` among the first
/// `i - start` steps of drawing it (rows `start` and `end` and columns `start` and `end`
/// filled together, index by index).
pub open spec fn outline_drawn(start: int, end: int, i: int, r: int, c: int) -> bool {
    ((r == start || r == end) && start <= c < i) || ((c == start || c == end) && start <= r < i)
}

/// The number of data layers for `len` bytes of content: the least of 1 to 32 whose
/// capacity of `16 * layers * layers` bits holds the content's bits, else 32.
pub fn layer_count_exec(len: usize) -> (layers: usize)
    requires
        len * 8 <= usize::MAX,
    ensures
        layers == layer_count(len as int),
        1 <= layers <= 32,
{
    let data_bits_len = len * 8;
    let mut layers: usize = 1;
    while layers < 32 && 16 * layers * layers < data_bits_len
        invariant
            1 <= layers <= 32,
            16 * layers * layers <= 16 * 32 * 32,
            data_bits_len == len * 8,
            layers_from(layers as int, data_bits_len as int) == layer_count(len as int),
        decreases 32 - layers,
    {
        layers = layers + 1;
        proof {
            assert(16 * layers * layers <= 16 * 32 * 32) by (nonlinear_arith) requires layers <= 32;
        }
    }
    proof {
        lemma_layers_from_bounds(layers as int, data_bits_len as int);
    }
    layers
}

/// The number of pixels on each edge of the Aztec picture of non-empty `content` (see
/// `encode`), `None` when `encode` cannot take it.
pub fn picture_side(content: &str, magnification: i32) -> (n: Option<u32>)
    ensures
        n is Some <==> content.spec_bytes().len() * 8 <= usize::MAX && grid_drawable(
            symbol_side(layer_count(content.spec_bytes().len() as int)),
            2,
            effective_magnification(magnification),
        ),
        n matches Some(v) ==> v == grid_image_side(
            symbol_side(layer_count(content.spec_bytes().len() as int)),
            2,
            effective_magnification(magnification),
        ),
{
    let len = content.as_bytes().len();
    if len > usize::MAX / 8 {
        return None;
    }
    let layers = layer_count_exec(len);
    let side: usize = if layers <= 4 {
        9 + layers * 4
    } else {
        13 + layers * 4
    };
    let mag: u32 = if magnification < 1 {
        1
    } else {
        magnification as u32
    };
    grid_picture_side(side, 2, mag)
}

/// Draws an Aztec style symbol for `content`: a bullseye with orientation marks and the
/// content bits on square rings round it, every module `magnification` pixels on each
/// edge, with a quiet zone of two modules; empty content is refused. The error-correction
/// level is accepted and not used.
pub fn encode(content: &str, magnification: i32, error_correction: i32) -> (res: Result<RgbaImage, String>)
    requires
        content@.len() > 0 ==> content.spec_bytes().len() * 8 <= usize::MAX && grid_drawable(
            symbol_side(layer_count(content.spec_bytes().len() as int)),
            2,
            effective_magnification(magnification),
        ),
    ensures
        res is Err <==> content@.len() == 0,
        res matches Err(e) ==> e@ == "Aztec: empty content"@,
        res matches Ok(img) ==> draws_grid(img, symbol_grid(content.spec_bytes()), 2, effective_magnification(magnification)),
{
    if content.is_empty() {
        return Err("Aztec: empty content".to_string());
    }
    let mag: u32 = if magnification < 1 {
        1
    } else {
        magnification as u32
    };
    let data_bytes = content.as_bytes();
    let layers = layer_count_exec(data_bytes.len());
    let ghost nl = layers as int;
    let is_compact = layers <= 4;
    let bullseye_size: usize = if is_compact {
        9
    } else {
        13
    };
    let side = bullseye_size + layers * 4;
    let center = side / 2;
    assert(side == symbol_side(nl) && center == symbol_side(nl) / 2);
    let ghost bits_spec = bits_of(data_bytes@);

    let mut modules = new_grid(side);

    // Bullseye: concentric square outlines.
    let rings: usize = if is_compact {
        2
    } else {
        3
    };
    let mut ring: usize = 0;
    while ring < rings
        invariant
            0 <= ring <= rings,
            rings == if is_compact { 2usize } else { 3usize },
            is_compact == (nl <= 4),
            side == symbol_side(nl),
            center == side / 2,
            1 <= nl <= 32,
            square_grid(modules.deep_view(), side as int),
            forall|r: int, c: int|
                0 <= r < side && 0 <= c < side ==> #[trigger] modules.deep_view()[r][c] == ((ring > 0 && ring_of(
                    center as int,
                    r,
                    c,
                ) == 1) || (ring > 2 && ring_of(center as int, r, c) == 5)),
        decreases rings - ring,
    {
        let r = ring * 2;
        let start = center - 1 - r;
        let end = center + 1 + r;
        if ring % 2 == 0 || ring == 0 {
            let mut i = start;
            while i <= end
                invariant
                    start <= i <= end + 1,
                    start == center - 1 - r,
                    end == center + 1 + r,
                    r == ring * 2,
                    ring < rings,
                    ring % 2 == 0,
                    rings == if is_compact { 2usize } else { 3usize },
                    is_compact == (nl <= 4),
                    side == symbol_side(nl),
                    center == side / 2,
                    1 <= nl <= 32,
                    square_grid(modules.deep_view(), side as int),
                    forall|rr: int, cc: int|
                        0 <= rr < side && 0 <= cc < side ==> #[trigger] modules.deep_view()[rr][cc] == (((ring > 0
                            && ring_of(center as int, rr, cc) == 1) || (ring > 2 && ring_of(center as int, rr, cc)
                            == 5)) || outline_drawn(start as int, end as int, i as int, rr, cc)),
                decreases end + 1 - i,
            {
                if i < side {
                    if start < side {
                        set_module(&mut modules, start, i, true);
                    }
                    if end < side {
                        set_module(&mut modules, end, i, true);
                    }
                    set_module(&mut modules, i, start, true);
                    set_module(&mut modules, i, end, true);
                }
                i = i + 1;
            }
            assert forall|rr: int, cc: int| 0 <= rr < side && 0 <= cc < side implies #[trigger] modules.deep_view()[rr][cc]
                == ((ring + 1 > 0 && ring_of(center as int, rr, cc) == 1) || (ring + 1 > 2 && ring_of(center as int, rr, cc) == 5)) by {
                assert(outline_drawn(start as int, end as int, end as int + 1, rr, cc) == (ring_of(center as int, rr, cc) == r + 1));
            }
        }
        ring = ring + 1;
    }

    // Centre module.
    set_module(&mut modules, center, center, true);

    // Orientation marks.
    if center >= 5 && center + 5 < side {
        set_module(&mut modules, center - 5, center + 3, true);
        set_module(&mut modules, center - 5, center + 4, true);
    }
    assert forall|r: int, c: int| 0 <= r < side && 0 <= c < side implies #[trigger] modules.deep_view()[r][c]
        == finder_dark(nl, r, c) by {}

    assert(filling(bits_of(data_bytes@), nl, 0, ring_offset(nl) + 1, 0, modules.deep_view()));
    // Content bits on the data rings, from the innermost ring outwards.
    let data_bits = bytes_to_bits(data_bytes);
    let mut bit_idx: usize = 0;
    let mut layer: usize = 0;
    while layer < layers
        invariant
            0 <= layer <= layers,
            layers == nl,
            1 <= nl <= 32,
            is_compact == (nl <= 4),
            side == symbol_side(nl),
            center == side / 2,
            data_bits@ == bits_spec,
            bit_idx == ring_base(nl, layer as int),
            bit_idx <= 20000,
            square_grid(modules.deep_view(), side as int),
            filling(bits_spec, nl, layer as int, ring_offset(nl) + 1 + 2 * layer, 0, modules.deep_view()),
        decreases layers - layer,
    {
        let offset: usize = if is_compact {
            5
        } else {
            7
        };
        let ring_start = center as i32 - offset as i32 - (layer as i32 * 2) - 1;
        let ring_end = center as i32 + offset as i32 + (layer as i32 * 2) + 1;
        let ghost d = (offset + 1 + 2 * layer) as int;
        let positions = get_ring_positions(ring_start, ring_end, side);
        assert(positions@.len() == 8 * d);
        let mut k: usize = 0;
        while k < positions.len()
            invariant
                0 <= k <= positions@.len(),
                positions@.len() == 8 * d,
                d == offset + 1 + 2 * layer,
                offset == ring_offset(nl),
                layer < layers,
                layers == nl,
                1 <= nl <= 32,
                side == symbol_side(nl),
                center == side / 2,
                data_bits@ == bits_spec,
                bit_idx == ring_base(nl, layer as int) + k,
                bit_idx <= 20000,
                forall|p: int|
                    0 <= p < positions@.len() ==> (#[trigger] positions@[p]).0 as int == outline_at(center - d, center + d, p).0
                        && positions@[p].1 as int == outline_at(center - d, center + d, p).1,
                square_grid(modules.deep_view(), side as int),
                filling(bits_spec, nl, layer as int, d, k as int, modules.deep_view()),
            decreases positions@.len() - k,
        {
            let (r, c) = positions[k];
            let val = if bit_idx < data_bits.len() {
                data_bits[bit_idx]
            } else {
                (r + c) % 2 == 0
            };
            proof {
                lemma_filling_step(bits_spec, nl, layer as int, d, k as int, modules.deep_view(), val);
                assert(ring_base(nl, layer as int) + 8 * d <= 20000) by (nonlinear_arith)
                    requires d == ring_offset(nl) + 1 + 2 * layer, layer < nl <= 32, ring_offset(nl) <= 7;
            }
            set_module(&mut modules, r, c, val);
            bit_idx = bit_idx + 1;
            k = k + 1;
        }
        proof {
            lemma_filling_layer_done(bits_spec, nl, layer as int, d, modules.deep_view());
        }
        layer = layer + 1;
    }
    proof {
        lemma_drawable_grid_small(side as int, 2, mag as int);
    }
    assert forall|r: int| 0 <= r < side implies #[trigger] modules.deep_view()[r] =~= symbol_grid(data_bytes@)[r] by {
        assert forall|c: int| 0 <= c < side implies #[trigger] modules.deep_view()[r][c] == symbol_grid(data_bytes@)[r][c] by {
            assert(modules.deep_view()[r][c] == symbol_module(bits_spec, nl, r, c));
        }
    }
    assert(modules.deep_view() =~= symbol_grid(data_bytes@));
    Ok(render_module_grid(&modules, 2, mag))
}

} // verus!
