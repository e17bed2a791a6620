use vstd::prelude::*;
use vstd::string::StrSliceExecFns;

use super::field_orientation::FieldOrientation;

verus! {

broadcast use vstd::string::group_string_axioms;

/// A font selection: its name, its width and height in dots (0 when not given) and its
/// rotation.
#[derive(Clone, Debug)]
pub struct FontInfo {
    pub name: String,
    pub width: i64,
    pub height: i64,
    pub orientation: FieldOrientation,
}

impl Default for FontInfo {
    fn default() -> (f: Self)
        ensures
            f.name@ == seq!['A'],
            f.width == 0,
            f.height == 0,
            f.orientation == FieldOrientation::Normal,
    {
        let name = "A".to_string();
        proof {
            reveal_strlit("A");
        }
        FontInfo { name, width: 0, height: 0, orientation: FieldOrientation::Normal }
    }
}

/// The native height and width of the bitmap font called `name`, if there is one.
pub open spec fn bitmap_font_size(name: Seq<char>) -> Option<(int, int)> {
    if name == seq!['A'] {
        Some((9, 5))
    } else if name == seq!['B'] {
        Some((11, 7))
    } else if name == seq!['C'] || name == seq!['D'] {
        Some((18, 10))
    } else if name == seq!['E'] {
        Some((28, 15))
    } else if name == seq!['F'] {
        Some((26, 13))
    } else if name == seq!['G'] {
        Some((60, 40))
    } else if name == seq!['H'] {
        Some((21, 13))
    } else if name == seq!['G', 'S'] {
        Some((24, 24))
    } else {
        None
    }
}

/// The native height and width of the bitmap font called `name`, if there is one.
pub fn bitmap_font_sizes(name: &str) -> (size: Option<(i64, i64)>)
    ensures
        match (size, bitmap_font_size(name@)) {
            (Some((h, w)), Some((sh, sw))) => h == sh && w == sw,
            (None, None) => true,
            _ => false,
        },
{
    let n = name.unicode_len();
    if n == 1 {
        let c = name.get_char(0);
        assert(name@ =~= seq![c]);
        if c == 'A' {
            Some((9, 5))
        } else if c == 'B' {
            Some((11, 7))
        } else if c == 'C' || c == 'D' {
            Some((18, 10))
        } else if c == 'E' {
            Some((28, 15))
        } else if c == 'F' {
            Some((26, 13))
        } else if c == 'G' {
            Some((60, 40))
        } else if c == 'H' {
            Some((21, 13))
        } else {
            None
        }
    } else if n == 2 {
        let c0 = name.get_char(0);
        let c1 = name.get_char(1);
        assert(name@ =~= seq![c0, c1]);
        if c0 == 'G' && c1 == 'S' {
            Some((24, 24))
        } else {
            None
        }
    } else {
        None
    }
}

/// `name` is the one-character name `c`.
fn name_is(name: &str, c: char) -> (r: bool)
    ensures
        r == (name@ == seq![c]),
{
    if name.unicode_len() == 1 {
        let c0 = name.get_char(0);
        assert(name@ =~= seq![c0]);
        c0 == c
    } else {
        false
    }
}

/// The nearest whole number to `a / b` (`b` positive), halves rounded away from zero.
pub open spec fn round_div(a: int, b: int) -> int {
    if a >= 0 {
        (2 * a + b) / (2 * b)
    } else {
        -((-2 * a + b) / (2 * b))
    }
}

/// `round_div(a, b)`, but at least one.
pub open spec fn size_steps(a: int, b: int) -> int {
    if round_div(a, b) < 1 {
        1
    } else {
        round_div(a, b)
    }
}

/// The width and height that a font with the given name and sizes is drawn at: a bitmap
/// font takes its native size when neither is given, otherwise whole multiples of its
/// native size (the missing one following the other); a scalable font uses the given
/// size for a missing one, and at least ten dots each.
pub open spec fn adjusted_size(name: Seq<char>, width: int, height: int) -> (int, int) {
    match bitmap_font_size(name) {
        Some((h0, w0)) => {
            if width == 0 && height == 0 {
                (w0, h0)
            } else {
                let w = if width == 0 {
                    w0 * size_steps(height, h0)
                } else {
                    w0 * size_steps(width, w0)
                };
                let h = if height == 0 {
                    h0 * size_steps(w, w0)
                } else {
                    h0 * size_steps(height, h0)
                };
                (w, h)
            }
        },
        None => {
            let w = if width == 0 {
                height
            } else {
                width
            };
            let h = if height == 0 {
                w
            } else {
                height
            };
            (if w < 10 {
                10
            } else {
                w
            }, if h < 10 {
                10
            } else {
                h
            })
        },
    }
}

/// A whole multiple of `b` is its own nearest multiple.
proof fn lemma_round_div_multiple(k: int, b: int)
    requires
        b >= 1,
        k >= 1,
    ensures
        round_div(b * k, b) == k,
        size_steps(b * k, b) == k,
{
    assert(b * k >= 0) by (nonlinear_arith) requires b >= 1, k >= 1;
    assert((2 * (b * k) + b) / (2 * b) == k) by (nonlinear_arith)
        requires b >= 1, k >= 1;
}

/// Adjusting a font's sizes a second time changes nothing: the adjusted sizes are already
/// those the font is drawn at.
pub proof fn adjusted_size_is_stable(name: Seq<char>, width: int, height: int)
    ensures
        adjusted_size(name, adjusted_size(name, width, height).0, adjusted_size(name, width, height).1)
            == adjusted_size(name, width, height),
{
    let (w, h) = adjusted_size(name, width, height);
    match bitmap_font_size(name) {
        Some((h0, w0)) => {
            if width == 0 && height == 0 {
                lemma_round_div_multiple(1, w0);
                lemma_round_div_multiple(1, h0);
            } else {
                let kw = if width == 0 {
                    size_steps(height, h0)
                } else {
                    size_steps(width, w0)
                };
                assert(w == w0 * kw);
                let kh = if height == 0 {
                    size_steps(w, w0)
                } else {
                    size_steps(height, h0)
                };
                assert(h == h0 * kh);
                lemma_round_div_multiple(kw, w0);
                lemma_round_div_multiple(kh, h0);
                assert(w != 0) by (nonlinear_arith) requires w == w0 * kw, w0 >= 1, kw >= 1;
                assert(h != 0) by (nonlinear_arith) requires h == h0 * kh, h0 >= 1, kh >= 1;
            }
        },
        None => {},
    }
}

/// `size_steps(a, b)`, computed wide enough for every `i64` size.
fn size_steps_exec(a: i64, b: i64) -> (n: i128)
    requires
        1 <= b <= 60,
    ensures
        n == size_steps(a as int, b as int),
        1 <= n,
        n * b <= (if a < 0 { 0 } else { a as int }) + b,
        n <= (if a < 0 { 0 } else { a as int }) + b,
{
    let a = a as i128;
    let b = b as i128;
    let r = if a >= 0 {
        (2 * a + b) / (2 * b)
    } else {
        let na = 0 - a;
        0 - (2 * na + b) / (2 * b)
    };
    proof {
        if a >= 0 {
            assert(((2 * a + b) / (2 * b)) * (2 * b) <= 2 * a + b) by (nonlinear_arith) requires b >= 1, a >= 0;
            assert(((2 * a + b) / (2 * b)) * b <= a + b) by (nonlinear_arith)
                requires ((2 * a + b) / (2 * b)) * (2 * b) <= 2 * a + b, b >= 1;
        }
    }
    let n = if r < 1 {
        1
    } else {
        r
    };
    proof {
        let m = if a < 0 { 0 } else { a as int };
        assert(n <= m + b) by (nonlinear_arith) requires n * b <= m + b, b >= 1, n >= 1, m >= 0;
    }
    n
}

impl FontInfo {
    /// The font size: its height.
    pub fn get_size(&self) -> (s: i64)
        ensures
            s == self.height,
    {
        self.height
    }

    /// The width of a glyph against its height that the font's width is measured in: one
    /// for the scalable font "0" and the symbol font "GS", two for every other font.
    pub fn get_width_to_height_ratio(&self) -> (r: i64)
        ensures
            r == if self.name@ == seq!['0'] || self.name@ == seq!['G', 'S'] {
                1i64
            } else {
                2i64
            },
    {
        let name = self.name.as_str();
        if name_is(name, '0') {
            return 1;
        }
        if name.unicode_len() == 2 {
            let c0 = name.get_char(0);
            let c1 = name.get_char(1);
            assert(name@ =~= seq![c0, c1]);
            if c0 == 'G' && c1 == 'S' {
                return 1;
            }
        }
        2
    }

    /// Whether the font is the scalable font "0" or one of the bitmap fonts.
    pub fn is_standard_font(&self) -> (r: bool)
        ensures
            r == (self.name@ == seq!['0'] || bitmap_font_size(self.name@) is Some),
    {
        name_is(self.name.as_str(), '0') || bitmap_font_sizes(self.name.as_str()).is_some()
    }

    /// The font with its width and height as it is drawn (see `adjusted_size`); the
    /// adjusted sizes must fit the `i64` fields.
    pub fn with_adjusted_sizes(&self) -> (font: FontInfo)
        requires
            adjusted_size(self.name@, self.width as int, self.height as int).0 <= i64::MAX,
            adjusted_size(self.name@, self.width as int, self.height as int).1 <= i64::MAX,
        ensures
            font.name@ == self.name@,
            font.orientation == self.orientation,
            (font.width as int, font.height as int) == adjusted_size(self.name@, self.width as int, self.height as int),
    {
        let mut font = FontInfo {
            name: self.name.clone(),
            width: self.width,
            height: self.height,
            orientation: self.orientation,
        };
        match bitmap_font_sizes(self.name.as_str()) {
            Some((h0, w0)) => {
                if font.width == 0 && font.height == 0 {
                    font.width = w0;
                    font.height = h0;
                    return font;
                }
                let k = if font.width == 0 {
                    size_steps_exec(font.height, h0)
                } else {
                    size_steps_exec(font.width, w0)
                };
                proof {
                    assert(w0 as i128 * k <= 60 * (0x8000_0000_0000_0000 + 60)) by (nonlinear_arith)
                        requires 1 <= w0 <= 60, 1 <= k <= 0x8000_0000_0000_0000 + 60;
                }
                let w = w0 as i128 * k;
                font.width = w as i64;
                let j = if font.height == 0 {
                    size_steps_exec(font.width, w0)
                } else {
                    size_steps_exec(font.height, h0)
                };
                proof {
                    assert(h0 as i128 * j <= 60 * (0x8000_0000_0000_0000 + 60)) by (nonlinear_arith)
                        requires 1 <= h0 <= 60, 1 <= j <= 0x8000_0000_0000_0000 + 60;
                }
                let h = h0 as i128 * j;
                font.height = h as i64;
                font
            },
            None => {
                if font.width == 0 {
                    font.width = font.height;
                }
                if font.height == 0 {
                    font.height = font.width;
                }
                if font.width < 10 {
                    font.width = 10;
                }
                if font.height < 10 {
                    font.height = 10;
                }
                font
            },
        }
    }
}

} // verus!
