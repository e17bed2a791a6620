use vstd::prelude::*;

pub mod reverse_print;
pub mod scaled;

verus! {

/// A pixel as its red, green, blue and alpha channels.
pub type Pixel = (u8, u8, u8, u8);

pub const COLOR_BLACK: Pixel = (0, 0, 0, 255);

pub const COLOR_WHITE: Pixel = (255, 255, 255, 255);

pub const COLOR_TRANSPARENT: Pixel = (0, 0, 0, 0);

/// An RGBA image with eight bits per channel, held in an `image::RgbaImage`.
#[verifier::external_body]
#[derive(Debug)]
pub struct RgbaImage {
    inner: image::RgbaImage,
}

/// The width and the height of an image.
pub uninterp spec fn image_size(img: RgbaImage) -> (u32, u32);

/// The pixels of an image, keyed by `(x, y)`; only keys inside the image size are meaningful.
pub uninterp spec fn image_contents(img: RgbaImage) -> Map<(u32, u32), Pixel>;

pub open spec fn width_of(img: RgbaImage) -> u32 {
    image_size(img).0
}

pub open spec fn height_of(img: RgbaImage) -> u32 {
    image_size(img).1
}

/// The pixel at `(x, y)`.
pub open spec fn pixel_at(img: RgbaImage, x: u32, y: u32) -> Pixel {
    image_contents(img)[(x, y)]
}

/// The points `(x, y)` of the first octant that the midpoint circle algorithm visits from
/// `(x, y)` with decision value `p`: while `x <= y` it takes the point, moves `x` one
/// right and, when `p` is not negative, `y` one down, updating `p` as
/// `imageproc::drawing::draw_hollow_circle_mut` does.
pub open spec fn circle_arc(x: int, y: int, p: int) -> Set<(int, int)>
    decreases y - x + 2,
{
    if x > y {
        Set::empty()
    } else {
        let nx = x + 1;
        if p < 0 {
            circle_arc(nx, y, p + 2 * nx + 1).insert((x, y))
        } else {
            circle_arc(nx, y - 1, p + 2 * (nx - (y - 1)) + 1).insert((x, y))
        }
    }
}

/// `q` is one of the eight reflections of the octant point `a` round `(cx, cy)`.
pub open spec fn reflects(cx: int, cy: int, a: (int, int), q: (int, int)) -> bool {
    let (x, y) = a;
    ||| q == (cx + x, cy + y)
    ||| q == (cx + y, cy + x)
    ||| q == (cx - y, cy + x)
    ||| q == (cx - x, cy + y)
    ||| q == (cx - x, cy - y)
    ||| q == (cx - y, cy - x)
    ||| q == (cx + y, cy - x)
    ||| q == (cx + x, cy - y)
}

/// The points of the circle round `(cx, cy)` with radius `radius` that
/// `imageproc::drawing::draw_hollow_circle_mut` draws: the eight reflections of the
/// octant points that the midpoint algorithm visits from `(0, radius)` with decision
/// value `1 - radius` (none for a negative radius).
pub open spec fn midpoint_circle(cx: i32, cy: i32, radius: i32) -> Set<(int, int)> {
    Set::new(
        |q: (int, int)|
            exists|a: (int, int)| #[trigger] circle_arc(0, radius as int, 1 - radius).contains(a) && reflects(cx as int, cy as int, a, q),
    )
}

/// The midpoint circle of a radius that is not negative passes through the four points
/// at that distance straight left, right, above and below its centre.
pub proof fn midpoint_circle_reaches_extremes(cx: i32, cy: i32, radius: i32)
    requires
        radius >= 0,
    ensures
        midpoint_circle(cx, cy, radius).contains((cx + radius, cy as int)),
        midpoint_circle(cx, cy, radius).contains((cx - radius, cy as int)),
        midpoint_circle(cx, cy, radius).contains((cx as int, cy + radius)),
        midpoint_circle(cx, cy, radius).contains((cx as int, cy - radius)),
{
    let a = (0int, radius as int);
    assert(circle_arc(0, radius as int, 1 - radius).contains(a));
    assert(reflects(cx as int, cy as int, a, (cx + radius, cy as int)));
    assert(reflects(cx as int, cy as int, a, (cx - radius, cy as int)));
    assert(reflects(cx as int, cy as int, a, (cx as int, cy + radius)));
    assert(reflects(cx as int, cy as int, a, (cx as int, cy - radius)));
}

/// An image of the given size can be allocated without overflowing its buffer length.
pub open spec fn allocatable(width: u32, height: u32) -> bool {
    width as int * height as int * 4 <= isize::MAX as int
}

/// `a` and `b` have the same size and the same pixels.
pub open spec fn same_image(a: RgbaImage, b: RgbaImage) -> bool {
    &&& image_size(a) == image_size(b)
    &&& forall|x: u32, y: u32|
        x < width_of(a) && y < height_of(a) ==> #[trigger] pixel_at(a, x, y) == pixel_at(b, x, y)
}

/// Every pixel of `img` is `p`.
pub open spec fn filled_with(img: RgbaImage, p: Pixel) -> bool {
    forall|x: u32, y: u32| x < width_of(img) && y < height_of(img) ==> #[trigger] pixel_at(img, x, y) == p
}

/// The colour that `image::imageops::overlay` leaves where a pixel `top` whose alpha is
/// neither 0 nor 255 is blended over `bottom`.
pub uninterp spec fn blend_over(bottom: Pixel, top: Pixel) -> Pixel;

/// The row-major RGBA bytes of an image of the given size and pixels.
pub open spec fn raw_byte(img: RgbaImage, i: int) -> u8 {
    let w = width_of(img) as int;
    let p = (i / 4) % w;
    let q = (i / 4) / w;
    let px = pixel_at(img, p as u32, q as u32);
    if i % 4 == 0 {
        px.0
    } else if i % 4 == 1 {
        px.1
    } else if i % 4 == 2 {
        px.2
    } else {
        px.3
    }
}

impl RgbaImage {
    /// `ImageBuffer::new`: an image of the given size whose channels are all zero.
    #[verifier::external_body]
    pub fn new(width: u32, height: u32) -> (img: RgbaImage)
        requires
            allocatable(width, height),
        ensures
            image_size(img) == (width, height),
            filled_with(img, COLOR_TRANSPARENT),
    {
        RgbaImage { inner: image::RgbaImage::new(width, height) }
    }

    /// `ImageBuffer::from_pixel`: an image of the given size whose pixels are all `p`.
    #[verifier::external_body]
    pub fn from_pixel(width: u32, height: u32, p: Pixel) -> (img: RgbaImage)
        requires
            allocatable(width, height),
        ensures
            image_size(img) == (width, height),
            filled_with(img, p),
    {
        RgbaImage { inner: image::RgbaImage::from_pixel(width, height, image::Rgba([p.0, p.1, p.2, p.3])) }
    }

    /// `ImageBuffer::dimensions`; the buffer of every image holds its `width * height * 4`
    /// bytes, so that size is allocatable.
    #[verifier::external_body]
    pub fn dimensions(&self) -> (d: (u32, u32))
        ensures
            d == image_size(*self),
            allocatable(d.0, d.1),
    {
        self.inner.dimensions()
    }

    /// `ImageBuffer::width`.
    #[verifier::external_body]
    pub fn width(&self) -> (w: u32)
        ensures
            w == width_of(*self),
    {
        self.inner.width()
    }

    /// `ImageBuffer::height`.
    #[verifier::external_body]
    pub fn height(&self) -> (h: u32)
        ensures
            h == height_of(*self),
    {
        self.inner.height()
    }

    /// `ImageBuffer::get_pixel`, which panics outside the image.
    #[verifier::external_body]
    pub fn get_pixel(&self, x: u32, y: u32) -> (p: Pixel)
        requires
            x < width_of(*self),
            y < height_of(*self),
        ensures
            p == pixel_at(*self, x, y),
    {
        let p = self.inner.get_pixel(x, y);
        (p[0], p[1], p[2], p[3])
    }

    /// `ImageBuffer::put_pixel`, which panics outside the image.
    #[verifier::external_body]
    pub fn put_pixel(&mut self, x: u32, y: u32, p: Pixel)
        requires
            x < width_of(*old(self)),
            y < height_of(*old(self)),
        ensures
            image_size(*final(self)) == image_size(*old(self)),
            image_contents(*final(self)) == image_contents(*old(self)).insert((x, y), p),
    {
        self.inner.put_pixel(x, y, image::Rgba([p.0, p.1, p.2, p.3]))
    }

    /// `ImageBuffer::clone`: a copy with the same size and pixels.
    #[verifier::external_body]
    pub fn duplicate(&self) -> (img: RgbaImage)
        ensures
            same_image(img, *self),
    {
        RgbaImage { inner: self.inner.clone() }
    }

    /// `image::imageops::overlay`: blends `top` over this image with its top-left corner at
    /// `(x, y)`; pixels that `top` does not cover are left as they are.
    #[verifier::external_body]
    pub fn overlay(&mut self, top: &RgbaImage, x: i64, y: i64)
        ensures
            image_size(*final(self)) == image_size(*old(self)),
            forall|bx: u32, by: u32|
                bx < width_of(*old(self)) && by < height_of(*old(self)) ==> #[trigger] pixel_at(*final(self), bx, by) == {
                    let tx = bx - x;
                    let ty = by - y;
                    let under = pixel_at(*old(self), bx, by);
                    if 0 <= tx < width_of(*top) && 0 <= ty < height_of(*top) {
                        let over = pixel_at(*top, tx as u32, ty as u32);
                        if over.3 == 0 {
                            under
                        } else if over.3 == 255 {
                            over
                        } else {
                            blend_over(under, over)
                        }
                    } else {
                        pixel_at(*old(self), bx, by)
                    }
                },
    {
        image::imageops::overlay(&mut self.inner, &top.inner, x, y)
    }

    /// `imageproc::drawing::draw_hollow_circle_mut`: paints the pixels of the midpoint
    /// circle round `center` with `radius` that lie on the image.
    #[verifier::external_body]
    pub(crate) fn draw_hollow_circle(&mut self, center: (i32, i32), radius: i32, p: Pixel)
        requires
            width_of(*old(self)) <= i32::MAX,
            height_of(*old(self)) <= i32::MAX,
            -0x100_0000 <= center.0 <= 0x100_0000,
            -0x100_0000 <= center.1 <= 0x100_0000,
            -0x100_0000 <= radius <= 0x100_0000,
        ensures
            image_size(*final(self)) == image_size(*old(self)),
            forall|x: u32, y: u32|
                x < width_of(*old(self)) && y < height_of(*old(self)) ==> #[trigger] pixel_at(*final(self), x, y) == if midpoint_circle(
                    center.0,
                    center.1,
                    radius,
                ).contains((x as int, y as int)) {
                    p
                } else {
                    pixel_at(*old(self), x, y)
                },
    {
        imageproc::drawing::draw_hollow_circle_mut(&mut self.inner, center, radius, image::Rgba([p.0, p.1, p.2, p.3]))
    }

    /// `ImageBuffer::as_raw`: the row-major RGBA bytes of the image.
    #[verifier::external_body]
    fn raw_bytes(&self) -> (bytes: Vec<u8>)
        ensures
            bytes.len() == width_of(*self) as int * height_of(*self) as int * 4,
            forall|i: int| 0 <= i < bytes.len() ==> #[trigger] bytes@[i] == raw_byte(*self, i),
    {
        self.inner.as_raw().clone()
    }

    /// `ImageBuffer::from_raw`, on a buffer of exactly `width * height * 4` bytes.
    #[verifier::external_body]
    fn from_raw_exact(width: u32, height: u32, bytes: Vec<u8>) -> (img: RgbaImage)
        requires
            bytes.len() == width as int * height as int * 4,
        ensures
            image_size(img) == (width, height),
            forall|i: int| 0 <= i < bytes.len() ==> #[trigger] raw_byte(img, i) == bytes@[i],
    {
        RgbaImage { inner: image::RgbaImage::from_raw(width, height, bytes).unwrap() }
    }

    /// Sets every pixel of the image to `p`.
    pub fn fill(&mut self, p: Pixel)
        ensures
            image_size(*final(self)) == image_size(*old(self)),
            filled_with(*final(self), p),
    {
        let (w, h) = self.dimensions();
        let mut y: u32 = 0;
        while y < h
            invariant
                image_size(*self) == (w, h),
                y <= h,
                forall|px: u32, py: u32| px < w && py < y ==> #[trigger] pixel_at(*self, px, py) == p,
            decreases h - y,
        {
            let mut x: u32 = 0;
            while x < w
                invariant
                    image_size(*self) == (w, h),
                    y < h,
                    x <= w,
                    forall|px: u32, py: u32|
                        px < w && (py < y || (py == y && px < x)) ==> #[trigger] pixel_at(*self, px, py) == p,
                decreases w - x,
            {
                let ghost prev = *self;
                self.put_pixel(x, y, p);
                assert forall|px: u32, py: u32| px < w && (py < y || (py == y && px < x + 1)) implies #[trigger] pixel_at(
                    *self,
                    px,
                    py,
                ) == p by {
                    if px != x || py != y {
                        assert(pixel_at(prev, px, py) == p);
                    }
                }
                x = x + 1;
            }
            y = y + 1;
        }
    }

    /// The row-major RGBA bytes of the image, four per pixel.
    pub fn to_rgba_bytes(&self) -> (bytes: Vec<u8>)
        ensures
            bytes.len() == width_of(*self) as int * height_of(*self) as int * 4,
            forall|i: int| 0 <= i < bytes.len() ==> #[trigger] bytes@[i] == raw_byte(*self, i),
    {
        self.raw_bytes()
    }

    /// The image of the given size whose row-major RGBA bytes are `bytes`; `None` when
    /// `bytes` does not hold exactly four bytes per pixel.
    pub fn from_rgba_bytes(width: u32, height: u32, bytes: Vec<u8>) -> (res: Option<RgbaImage>)
        ensures
            res is None <==> bytes.len() != width as int * height as int * 4,
            res matches Some(img) ==> image_size(img) == (width, height) && forall|i: int|
                0 <= i < bytes.len() ==> #[trigger] raw_byte(img, i) == bytes@[i],
    {
        let expected: Option<usize> = checked_len(width, height);
        match expected {
            Some(n) => {
                if bytes.len() == n {
                    Some(Self::from_raw_exact(width, height, bytes))
                } else {
                    None
                }
            },
            None => None,
        }
    }
}

/// `width * height * 4` when it fits in a `usize`.
fn checked_len(width: u32, height: u32) -> (res: Option<usize>)
    ensures
        res matches Some(n) ==> n == width as int * height as int * 4,
        res is None ==> width as int * height as int * 4 > usize::MAX,
{
    let w = width as usize;
    let h = height as usize;
    match w.checked_mul(h) {
        Some(wh) => wh.checked_mul(4),
        None => {
            assert(w as int * h as int * 4 > usize::MAX) by (nonlinear_arith)
                requires w as int * h as int > usize::MAX;
            None
        },
    }
}

} // verus!
