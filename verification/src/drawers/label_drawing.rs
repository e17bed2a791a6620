use vstd::prelude::*;

use super::element_drawing::{
    drawn_outside, element_drawable, element_drawing_is_deterministic, element_drawn, empty_symbol, empty_symbol_message,
};
use super::label_canvas::{
    finish_canvas, finished, finishing_is_deterministic, inverted_label_turns_upright_label, upright_label_layout, centring_offset,
};
use super::renderer::is_rotation;
use crate::elements::field_orientation::FieldOrientation;
use super::renderer::Renderer;
use crate::elements::label_element::{self, LabelElement};
use crate::elements::label_info::LabelInfo;
use crate::images::reverse_print::{self, reverse_print};
use crate::images::{
    allocatable, filled_with, height_of, image_size, pixel_at, same_image, width_of, RgbaImage, COLOR_TRANSPARENT, COLOR_WHITE,
};

verus! {

/// What happened to the next element of a label, and what the caller does next.
#[derive(Clone, Copy, Debug, PartialEq, Eq, Structural)]
pub enum Progress {
    /// The element was drawn.
    Drawn,
    /// The element is one that the caller draws (see `drawn_outside`): it takes the image
    /// the element goes on with `take_target`, draws the element on it and hands it back
    /// with `give_back`.
    Outside,
    /// Every element has been drawn.
    Finished,
}

/// `layer` is `element` drawn (see `element_drawn`) on a transparent image of the given
/// size.
pub open spec fn drawn_on_clear(layer: RgbaImage, element: LabelElement, size: (u32, u32)) -> bool {
    exists|blank: RgbaImage|
        image_size(blank) == size && filled_with(blank, COLOR_TRANSPARENT) && #[trigger] element_drawn(
            blank,
            layer,
            element,
        )
}

/// `after` is the canvas `before` with `element` applied: drawn on it, or, for a
/// reverse-printed element, drawn on a clear layer (`layer`) that then reverses the canvas
/// under it.
pub open spec fn element_applied(before: RgbaImage, after: RgbaImage, layer: RgbaImage, element: LabelElement) -> bool {
    if label_element::reverse_printed(element) {
        &&& drawn_on_clear(layer, element, image_size(before))
        &&& reverse_print::reverse_printed(layer, before, after)
    } else {
        element_drawn(before, after, element)
    }
}

/// A reverse-printed element applied twice in a row leaves the canvas as it was: both
/// times it is drawn on a clear layer of the same size, so the second application
/// reverses exactly the pixels that the first reversed.
pub proof fn reverse_printed_element_twice_restores(
    element: LabelElement,
    first: RgbaImage,
    second: RgbaImage,
    third: RgbaImage,
    layer1: RgbaImage,
    layer2: RgbaImage,
)
    requires
        label_element::reverse_printed(element),
        element_applied(first, second, layer1, element),
        element_applied(second, third, layer2, element),
    ensures
        same_image(third, first),
{
    let size = image_size(first);
    let blank1 = choose|blank: RgbaImage|
        image_size(blank) == size && filled_with(blank, COLOR_TRANSPARENT) && #[trigger] element_drawn(blank, layer1, element);
    let blank2 = choose|blank: RgbaImage|
        image_size(blank) == size && filled_with(blank, COLOR_TRANSPARENT) && #[trigger] element_drawn(blank, layer2, element);
    assert(same_image(blank1, blank2));
    element_drawing_is_deterministic(element, blank1, layer1, blank2, layer2);
    assert forall|x: u32, y: u32| x < width_of(third) && y < height_of(third) implies #[trigger] pixel_at(third, x, y)
        == pixel_at(first, x, y) by {
        assert(pixel_at(second, x, y) == if reverse_print::mask_covers(layer1, x, y) {
            reverse_print::inverted(pixel_at(first, x, y))
        } else {
            pixel_at(first, x, y)
        });
        if x < width_of(layer1) && y < height_of(layer1) {
            assert(pixel_at(layer1, x, y) == pixel_at(layer2, x, y));
        }
    }
}

/// Applying an element is deterministic: on canvases with the same pixels it gives
/// canvases with the same pixels, whatever layers the two applications used.
pub proof fn element_application_is_deterministic(
    element: LabelElement,
    before1: RgbaImage,
    after1: RgbaImage,
    layer1: RgbaImage,
    before2: RgbaImage,
    after2: RgbaImage,
    layer2: RgbaImage,
)
    requires
        same_image(before1, before2),
        element_applied(before1, after1, layer1, element),
        element_applied(before2, after2, layer2, element),
    ensures
        same_image(after1, after2),
{
    if label_element::reverse_printed(element) {
        let size = image_size(before1);
        let blank1 = choose|blank: RgbaImage|
            image_size(blank) == size && filled_with(blank, COLOR_TRANSPARENT) && #[trigger] element_drawn(blank, layer1, element);
        let blank2 = choose|blank: RgbaImage|
            image_size(blank) == size && filled_with(blank, COLOR_TRANSPARENT) && #[trigger] element_drawn(blank, layer2, element);
        assert(same_image(blank1, blank2));
        element_drawing_is_deterministic(element, blank1, layer1, blank2, layer2);
        assert forall|x: u32, y: u32| x < width_of(after1) && y < height_of(after1) implies #[trigger] pixel_at(after1, x, y)
            == pixel_at(after2, x, y) by {
            assert(pixel_at(before1, x, y) == pixel_at(before2, x, y));
            if x < width_of(layer1) && y < height_of(layer1) {
                assert(pixel_at(layer1, x, y) == pixel_at(layer2, x, y));
            }
        }
    } else {
        element_drawing_is_deterministic(element, before1, after1, before2, after2);
    }
}

/// Applying an element keeps the canvas size.
proof fn lemma_application_keeps_size(element: LabelElement, before: RgbaImage, after: RgbaImage, layer: RgbaImage)
    requires
        element_applied(before, after, layer, element),
    ensures
        image_size(after) == image_size(before),
{
}

/// `canvases` is a run drawing `elements` one after the other: each canvas is the one
/// before it with the next element applied (`layers` being the layers that were used).
pub open spec fn label_run(canvases: Seq<RgbaImage>, layers: Seq<RgbaImage>, elements: Seq<LabelElement>) -> bool {
    &&& canvases.len() == elements.len() + 1
    &&& layers.len() == elements.len()
    &&& forall|i: int|
        0 <= i < elements.len() ==> element_applied(canvases[i], canvases[i + 1], layers[i], #[trigger] elements[i])
}

proof fn lemma_same_image_symmetric(a: RgbaImage, b: RgbaImage)
    requires
        same_image(a, b),
    ensures
        same_image(b, a),
{
    assert forall|x: u32, y: u32| x < width_of(b) && y < height_of(b) implies #[trigger] pixel_at(b, x, y) == pixel_at(a, x, y) by {
        assert(pixel_at(a, x, y) == pixel_at(b, x, y));
    }
}

proof fn lemma_same_image_transitive(a: RgbaImage, b: RgbaImage, c: RgbaImage)
    requires
        same_image(a, b),
        same_image(b, c),
    ensures
        same_image(a, c),
{
    assert forall|x: u32, y: u32| x < width_of(a) && y < height_of(a) implies #[trigger] pixel_at(a, x, y) == pixel_at(c, x, y) by {
        assert(pixel_at(a, x, y) == pixel_at(b, x, y));
        assert(pixel_at(b, x, y) == pixel_at(c, x, y));
    }
}

/// Two runs that apply the same `n` elements, from positions `i` and `j` on, to canvases
/// with the same pixels end on canvases with the same pixels.
proof fn lemma_runs_agree(
    c: Seq<RgbaImage>,
    l: Seq<RgbaImage>,
    es: Seq<LabelElement>,
    d: Seq<RgbaImage>,
    m: Seq<RgbaImage>,
    fs: Seq<LabelElement>,
    i: int,
    j: int,
    n: int,
)
    requires
        label_run(c, l, es),
        label_run(d, m, fs),
        0 <= i,
        0 <= j,
        0 <= n,
        i + n <= es.len(),
        j + n <= fs.len(),
        forall|k: int| #![trigger es[i + k]] 0 <= k < n ==> es[i + k] == fs[j + k],
        same_image(c[i], d[j]),
    ensures
        same_image(c[i + n], d[j + n]),
    decreases n,
{
    if n > 0 {
        lemma_runs_agree(c, l, es, d, m, fs, i, j, n - 1);
        let k = n - 1;
        assert(es[i + k] == fs[j + k]);
        assert(element_applied(c[i + k], c[i + k + 1], l[i + k], es[i + k]));
        assert(element_applied(d[j + k], d[j + k + 1], m[j + k], fs[j + k]));
        element_application_is_deterministic(es[i + k], c[i + k], c[i + k + 1], l[i + k], d[j + k], d[j + k + 1], m[j + k]);
    }
}

/// A run keeps the size of the canvas it starts from.
proof fn lemma_run_keeps_size(c: Seq<RgbaImage>, l: Seq<RgbaImage>, es: Seq<LabelElement>, n: int)
    requires
        label_run(c, l, es),
        0 <= n <= es.len(),
    ensures
        image_size(c[n]) == image_size(c[0]),
    decreases n,
{
    if n > 0 {
        lemma_run_keeps_size(c, l, es, n - 1);
        assert(element_applied(c[n - 1], c[n], l[n - 1], es[n - 1]));
        lemma_application_keeps_size(es[n - 1], c[n - 1], c[n], l[n - 1]);
    }
}

/// Drawing a label is deterministic: runs of the same elements from canvases with the
/// same pixels end on canvases with the same pixels.
pub proof fn label_drawing_is_deterministic(
    c: Seq<RgbaImage>,
    l: Seq<RgbaImage>,
    d: Seq<RgbaImage>,
    m: Seq<RgbaImage>,
    elements: Seq<LabelElement>,
)
    requires
        label_run(c, l, elements),
        label_run(d, m, elements),
        same_image(c[0], d[0]),
    ensures
        same_image(c.last(), d.last()),
{
    lemma_runs_agree(c, l, elements, d, m, elements, 0, 0, elements.len() as int);
}

/// Two equal reverse-printed elements put next to each other anywhere in a label leave
/// the drawn label as it was: the second reverses exactly what the first reversed.
pub proof fn reverse_pair_leaves_label_unchanged(
    elements: Seq<LabelElement>,
    k: int,
    element: LabelElement,
    c: Seq<RgbaImage>,
    l: Seq<RgbaImage>,
    d: Seq<RgbaImage>,
    m: Seq<RgbaImage>,
)
    requires
        0 <= k <= elements.len(),
        label_element::reverse_printed(element),
        label_run(c, l, elements),
        label_run(d, m, elements.take(k) + seq![element, element] + elements.skip(k)),
        same_image(c[0], d[0]),
    ensures
        same_image(d.last(), c.last()),
{
    let fs = elements.take(k) + seq![element, element] + elements.skip(k);
    let n = elements.len() as int;
    assert forall|t: int| #![trigger elements[0 + t]] 0 <= t < k implies elements[0 + t] == fs[0 + t] by {}
    lemma_runs_agree(c, l, elements, d, m, fs, 0, 0, k);
    assert(fs[k] == element && fs[k + 1] == element);
    assert(element_applied(d[k], d[k + 1], m[k], fs[k]));
    assert(element_applied(d[k + 1], d[k + 2], m[k + 1], fs[k + 1]));
    reverse_printed_element_twice_restores(element, d[k], d[k + 1], d[k + 2], m[k], m[k + 1]);
    lemma_same_image_symmetric(d[k + 2], d[k]);
    lemma_same_image_transitive(c[k], d[k], d[k + 2]);
    assert forall|t: int| #![trigger elements[k + t]] 0 <= t < n - k implies elements[k + t] == fs[k + 2 + t] by {}
    lemma_runs_agree(c, l, elements, d, m, fs, k, k + 2, n - k);
    lemma_same_image_symmetric(c[n], d[n + 2]);
}

/// A label drawn by a run of its elements and finished upright is the label width wide:
/// white left and right of the drawn image, which is centred on it with every opaque
/// pixel copied.
pub proof fn upright_label_is_centred(
    c: Seq<RgbaImage>,
    l: Seq<RgbaImage>,
    elements: Seq<LabelElement>,
    label_width: int,
    out: RgbaImage,
)
    requires
        label_run(c, l, elements),
        width_of(c[0]) <= label_width <= u32::MAX,
        finished(c.last(), label_width, false, out),
    ensures
        image_size(out) == (label_width as u32, height_of(c[0])),
        forall|x: u32, y: u32|
            x < label_width && y < height_of(c[0]) ==> {
                let off = centring_offset(label_width, width_of(c[0]) as int);
                &&& (x < off || x >= off + width_of(c[0])) ==> #[trigger] pixel_at(out, x, y) == COLOR_WHITE
                &&& (off <= x < off + width_of(c[0]) && pixel_at(c.last(), (x - off) as u32, y).3 == 255)
                    ==> pixel_at(out, x, y) == pixel_at(c.last(), (x - off) as u32, y)
            },
{
    lemma_run_keeps_size(c, l, elements, elements.len() as int);
    upright_label_layout(c.last(), label_width, out);
}

/// Inverting a label that its drawing spans turns the upright label half a turn: the
/// same elements drawn from canvases with the same pixels, finished upright and inverted.
pub proof fn inverted_label_is_upright_label_turned(
    c: Seq<RgbaImage>,
    l: Seq<RgbaImage>,
    d: Seq<RgbaImage>,
    m: Seq<RgbaImage>,
    elements: Seq<LabelElement>,
    upright: RgbaImage,
    inverted: RgbaImage,
)
    requires
        label_run(c, l, elements),
        label_run(d, m, elements),
        same_image(c[0], d[0]),
        finished(c.last(), width_of(c[0]) as int, false, upright),
        finished(d.last(), width_of(c[0]) as int, true, inverted),
    ensures
        is_rotation(upright, FieldOrientation::Rotated180, inverted),
{
    lemma_run_keeps_size(c, l, elements, elements.len() as int);
    label_drawing_is_deterministic(c, l, d, m, elements);
    inverted_label_turns_upright_label(c.last(), d.last(), upright, inverted);
}

/// With inversion off the inverted flag makes no difference: the same elements drawn
/// from canvases with the same pixels and finished upright give labels with the same
/// pixels.
pub proof fn upright_labels_agree(
    c: Seq<RgbaImage>,
    l: Seq<RgbaImage>,
    d: Seq<RgbaImage>,
    m: Seq<RgbaImage>,
    elements: Seq<LabelElement>,
    label_width: int,
    out1: RgbaImage,
    out2: RgbaImage,
)
    requires
        label_run(c, l, elements),
        label_run(d, m, elements),
        same_image(c[0], d[0]),
        0 <= label_width <= u32::MAX,
        finished(c.last(), label_width, false, out1),
        finished(d.last(), label_width, false, out2),
    ensures
        same_image(out1, out2),
{
    label_drawing_is_deterministic(c, l, d, m, elements);
    finishing_is_deterministic(c.last(), d.last(), label_width, false, out1, out2);
}

/// A label being drawn, element by element: the canvas, the layer that reverse-printed
/// elements are drawn on, the index of the next element and whether an element has been
/// handed to the caller (and whether it is reverse printed).
pub struct LabelDrawing {
    canvas: RgbaImage,
    layer: Option<RgbaImage>,
    size: (u32, u32),
    next: usize,
    handed_out: Option<bool>,
    taken: bool,
}

impl LabelDrawing {
    /// The canvas.
    pub closed spec fn canvas(&self) -> RgbaImage {
        self.canvas
    }

    /// The layer of reverse-printed elements, once one has been drawn.
    pub closed spec fn layer(&self) -> Option<RgbaImage> {
        self.layer
    }

    /// The canvas size.
    pub closed spec fn size(&self) -> (u32, u32) {
        self.size
    }

    /// The index of the next element.
    pub closed spec fn next_index(&self) -> int {
        self.next as int
    }

    /// `Some(reverse)` while an element is with the caller, `reverse` saying whether it is
    /// reverse printed.
    pub closed spec fn handed_out(&self) -> Option<bool> {
        self.handed_out
    }

    /// The caller holds the image that the element handed out goes on.
    pub closed spec fn target_taken(&self) -> bool {
        self.taken
    }

    /// The drawing is consistent: the canvas, and the layer when there is one, have the
    /// drawing's size (unless the caller holds them), which `i32` coordinates can address.
    pub closed spec fn wf(&self) -> bool {
        &&& self.size.0 <= i32::MAX
        &&& self.size.1 <= i32::MAX
        &&& allocatable(self.size.0, self.size.1)
        &&& !(self.taken && self.handed_out == Some(false)) ==> image_size(self.canvas) == self.size
        &&& !(self.taken && self.handed_out == Some(true)) ==> (self.layer matches Some(l) ==> image_size(l) == self.size)
        &&& self.taken ==> self.handed_out is Some
        &&& self.handed_out is Some ==> self.next < usize::MAX
        &&& (self.handed_out == Some(true) && !self.taken) ==> (self.layer matches Some(l) && filled_with(l, COLOR_TRANSPARENT))
    }

    /// Starts drawing a label on a white canvas of the given size.
    pub fn new(width: u32, height: u32) -> (d: LabelDrawing)
        requires
            width <= i32::MAX,
            height <= i32::MAX,
            allocatable(width, height),
        ensures
            d.wf(),
            d.size() == (width, height),
            image_size(d.canvas()) == (width, height),
            filled_with(d.canvas(), COLOR_WHITE),
            d.next_index() == 0,
            d.handed_out() is None,
            !d.target_taken(),
    {
        LabelDrawing {
            canvas: RgbaImage::from_pixel(width, height, COLOR_WHITE),
            layer: None,
            size: (width, height),
            next: 0,
            handed_out: None,
            taken: false,
        }
    }

    /// The index of the next element.
    pub fn current_index(&self) -> (i: usize)
        ensures
            i == self.next_index(),
    {
        self.next
    }

    /// Whether `draw_next` can take the next element of `label` (see `element_drawable`);
    /// true once every element has been drawn.
    pub fn next_drawable(&self, renderer: &Renderer, label: &LabelInfo) -> (ok: bool)
        requires
            self.wf(),
            !self.target_taken(),
        ensures
            ok == (self.next_index() < label.elements@.len() ==> element_drawable(label.elements@[self.next_index()])),
    {
        if self.next >= label.elements.len() {
            return true;
        }
        renderer.can_draw(&self.canvas, &label.elements[self.next])
    }

    /// Draws the next element of `label` (see `element_applied`): on the canvas, or, when it
    /// is reverse printed, on the cleared layer, which then reverses the canvas under it.
    /// Text, diagonal lines and far-out circles are handed to the caller
    /// (`Progress::Outside`, see `drawn_outside`), with the layer cleared first when they
    /// are reverse printed; `Progress::Finished` says that
    /// every element has been drawn. A two-dimensional barcode with empty content gives
    /// its encoder's error.
    pub fn draw_next(&mut self, renderer: &Renderer, label: &LabelInfo) -> (res: Result<Progress, String>)
        requires
            old(self).wf(),
            old(self).handed_out() is None,
            old(self).next_index() <= label.elements@.len(),
            old(self).next_index() < label.elements@.len() ==> element_drawable(
                label.elements@[old(self).next_index()],
            ),
        ensures
            final(self).wf(),
            final(self).size() == old(self).size(),
            !final(self).target_taken(),
            final(self).next_index() <= label.elements@.len(),
            (res matches Ok(Progress::Finished)) <==> old(self).next_index() == label.elements@.len(),
            res matches Ok(Progress::Finished) ==> final(self).canvas() == old(self).canvas() && final(self).next_index()
                == old(self).next_index() && final(self).handed_out() is None,
            old(self).next_index() < label.elements@.len() ==> {
                let element = label.elements@[old(self).next_index()];
                &&& res is Err <==> empty_symbol(element)
                &&& res matches Err(e) ==> e@ == empty_symbol_message(element) && final(self).canvas() == old(
                    self,
                ).canvas()
                &&& (res matches Ok(Progress::Drawn)) <==> !empty_symbol(element) && !drawn_outside(element)
                &&& res matches Ok(Progress::Drawn) ==> final(self).next_index() == old(self).next_index() + 1
                    && final(self).handed_out() is None && (label_element::reverse_printed(element)
                    ==> final(self).layer() is Some) && element_applied(
                    old(self).canvas(),
                    final(self).canvas(),
                    final(self).layer().unwrap(),
                    element,
                )
                &&& (res matches Ok(Progress::Outside)) <==> drawn_outside(element)
                &&& res matches Ok(Progress::Outside) ==> final(self).next_index() == old(self).next_index()
                    && final(self).handed_out() == Some(label_element::reverse_printed(element)) && final(self).canvas()
                    == old(self).canvas()
            },
    {
        if self.next >= label.elements.len() {
            return Ok(Progress::Finished);
        }
        let element = &label.elements[self.next];
        if element.is_reverse_print() {
            let mut layer = match self.layer.take() {
                Some(l) => l,
                None => RgbaImage::new(self.size.0, self.size.1),
            };
            layer.fill(COLOR_TRANSPARENT);
            let ghost blank = layer;
            let outcome = renderer.draw_element(&mut layer, element);
            match outcome {
                Ok(true) => {
                    assert(element_drawn(blank, layer, *element));
                    reverse_print(&layer, &mut self.canvas);
                    self.layer = Some(layer);
                    self.next = self.next + 1;
                    Ok(Progress::Drawn)
                },
                Ok(false) => {
                    self.layer = Some(layer);
                    self.handed_out = Some(true);
                    Ok(Progress::Outside)
                },
                Err(e) => {
                    self.layer = Some(layer);
                    Err(e)
                },
            }
        } else {
            match renderer.draw_element(&mut self.canvas, element) {
                Ok(true) => {
                    self.next = self.next + 1;
                    Ok(Progress::Drawn)
                },
                Ok(false) => {
                    self.handed_out = Some(false);
                    Ok(Progress::Outside)
                },
                Err(e) => Err(e),
            }
        }
    }

    /// Hands the caller the image that the element handed out goes on: the layer when the
    /// element is reverse printed, otherwise the canvas.
    pub fn take_target(&mut self) -> (target: RgbaImage)
        requires
            old(self).wf(),
            old(self).handed_out() is Some,
            !old(self).target_taken(),
        ensures
            final(self).wf(),
            final(self).target_taken(),
            final(self).size() == old(self).size(),
            final(self).next_index() == old(self).next_index(),
            final(self).handed_out() == old(self).handed_out(),
            image_size(target) == old(self).size(),
            old(self).handed_out() == Some(false) ==> target == old(self).canvas(),
            old(self).handed_out() == Some(true) ==> old(self).layer() == Some(target) && filled_with(
                target,
                COLOR_TRANSPARENT,
            ) && final(self).canvas() == old(self).canvas(),
    {
        self.taken = true;
        match self.handed_out {
            Some(true) => match self.layer.take() {
                Some(l) => l,
                None => RgbaImage::new(self.size.0, self.size.1),
            },
            _ => {
                let mut target = RgbaImage::new(0, 0);
                std::mem::swap(&mut target, &mut self.canvas);
                target
            },
        }
    }

    /// Takes back the image that the caller drew the element handed out on: it becomes the
    /// canvas, or, for a reverse-printed element, the layer, which reverses the canvas
    /// under it; the next element follows.
    pub fn give_back(&mut self, target: RgbaImage)
        requires
            old(self).wf(),
            old(self).target_taken(),
            image_size(target) == old(self).size(),
        ensures
            final(self).wf(),
            !final(self).target_taken(),
            final(self).handed_out() is None,
            final(self).size() == old(self).size(),
            final(self).next_index() == old(self).next_index() + 1,
            old(self).handed_out() == Some(false) ==> final(self).canvas() == target,
            old(self).handed_out() == Some(true) ==> reverse_print::reverse_printed(
                target,
                old(self).canvas(),
                final(self).canvas(),
            ) && final(self).layer() == Some(target),
    {
        match self.handed_out {
            Some(true) => {
                reverse_print(&target, &mut self.canvas);
                self.layer = Some(target);
            },
            _ => {
                self.canvas = target;
            },
        }
        self.handed_out = None;
        self.taken = false;
        self.next = self.next + 1;
    }

    /// The finished label once its elements are drawn: the canvas centred on a white label
    /// `label_width` wide, and turned half a turn when inverted labels are enabled and the
    /// label is inverted (see `finish_canvas`).
    pub fn finish(self, label: &LabelInfo, label_width: u32, enable_inverted_labels: bool) -> (out: RgbaImage)
        requires
            self.wf(),
            self.handed_out() is None,
            self.size().0 <= label_width <= i32::MAX,
            allocatable(label_width, self.size().1),
        ensures
            finished(self.canvas(), label_width as int, enable_inverted_labels && label.inverted, out),
    {
        let invert = enable_inverted_labels && label.inverted;
        finish_canvas(self.canvas, label_width, invert)
    }
}

} // verus!