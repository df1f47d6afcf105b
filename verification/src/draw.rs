use vstd::prelude::*;

use crate::colors::{spec_white, white, Color};
use crate::config::{
    color_dark_ground, color_dark_wall, color_light_ground, color_light_wall,
    spec_color_dark_ground, spec_color_dark_wall, spec_color_light_ground, spec_color_light_wall,
};

verus! {

/// Relies on String's FromIterator over chars: the collected string holds
/// exactly the characters of the vector, in order.
#[verifier::external_body]
fn string_from_chars(v: &Vec<char>) -> (r: String)
    ensures
        r@ == v@,
{
    v.iter().collect()
}

/// Where a run of text is anchored relative to its `x` coordinate.
pub enum TextAlignment {
    Left,
    Center,
    Right,
}

/// The software console: a grid of background colours and a grid of glyphs,
/// plus the current fill and stroke colours.  Named after the classic
/// roguelike console library whose drawing calls it mirrors.
pub struct Tcod {
    pub w: i32,
    pub h: i32,
    pub fill: Option<Color>,
    pub stroke: Option<Color>,
    pub bg: Vec<Vec<Option<Color>>>,
    pub chars: Vec<Vec<Option<(char, Color)>>>,
}

/// The x offset an alignment gives a run of text of `len` characters.
pub open spec fn spec_align_offset(align: TextAlignment, len: int) -> int {
    match align {
        TextAlignment::Left => 0,
        TextAlignment::Right => len,
        TextAlignment::Center => -(len / 2),
    }
}

impl Tcod {
    /// Both grids span exactly `w` columns of `h` cells.
    pub open spec fn wf(&self) -> bool {
        &&& self.w >= 0
        &&& self.h >= 0
        &&& self.bg@.len() == self.w
        &&& forall|x: int| 0 <= x < self.w ==> (#[trigger] self.bg@[x])@.len() == self.h
        &&& self.chars@.len() == self.w
        &&& forall|x: int| 0 <= x < self.w ==> (#[trigger] self.chars@[x])@.len() == self.h
    }

    #[verifier::inline]
    pub open spec fn spec_bg(&self, x: int, y: int) -> Option<Color> {
        self.bg@[x]@[y]
    }

    #[verifier::inline]
    pub open spec fn spec_char(&self, x: int, y: int) -> Option<(char, Color)> {
        self.chars@[x]@[y]
    }

    /// The colour glyphs are drawn with: the stroke colour, white before any
    /// stroke is set.
    pub open spec fn spec_stroke_color(&self) -> Color {
        match self.stroke {
            Option::Some(c) => c,
            Option::None => spec_white(),
        }
    }

    /// The dimensions and both static grids are untouched but for glyphs.
    pub open spec fn same_but_chars(pre: Tcod, post: Tcod) -> bool {
        &&& post.w == pre.w
        &&& post.h == pre.h
        &&& post.fill == pre.fill
        &&& post.stroke == pre.stroke
        &&& post.bg == pre.bg
        &&& post.chars@.len() == pre.chars@.len()
        &&& forall|x: int| 0 <= x < pre.w ==> (#[trigger] post.chars@[x])@.len() == pre.chars@[x]@.len()
    }

    #[verifier::loop_isolation(false)]
    pub fn new(w: i32, h: i32) -> (r: Tcod)
        requires
            0 <= w,
            0 <= h,
        ensures
            r.wf(),
            r.w == w,
            r.h == h,
            r.fill is None,
            r.stroke is None,
            forall|x: int, y: int| 0 <= x < w && 0 <= y < h ==> r.spec_bg(x, y) is None,
            forall|x: int, y: int| 0 <= x < w && 0 <= y < h ==> r.spec_char(x, y) is None,
    {
        let mut bg: Vec<Vec<Option<Color>>> = Vec::new();
        let mut chars: Vec<Vec<Option<(char, Color)>>> = Vec::new();
        while bg.len() < w as usize
            invariant
                bg@.len() <= w,
                chars@.len() == bg@.len(),
                forall|x: int| 0 <= x < bg@.len() ==> (#[trigger] bg@[x])@.len() == h,
                forall|x: int| 0 <= x < bg@.len() ==> (#[trigger] chars@[x])@.len() == h,
                forall|x: int, y: int|
                    0 <= x < bg@.len() && 0 <= y < h ==> bg@[x]@[y] is None && chars@[x]@[y] is None,
            decreases w - bg@.len(),
        {
            let mut bcol: Vec<Option<Color>> = Vec::new();
            let mut ccol: Vec<Option<(char, Color)>> = Vec::new();
            while bcol.len() < h as usize
                invariant
                    bcol@.len() <= h,
                    ccol@.len() == bcol@.len(),
                    forall|y: int|
                        0 <= y < bcol@.len() ==> bcol@[y] is None && ccol@[y] is None,
                decreases h - bcol@.len(),
            {
                bcol.push(Option::None);
                ccol.push(Option::None);
            }
            bg.push(bcol);
            chars.push(ccol);
        }
        Tcod { w, h, fill: Option::None, stroke: Option::None, bg, chars }
    }

    /// Remove every glyph; backgrounds and colours stay.
    #[verifier::loop_isolation(false)]
    pub fn clear_chars(&mut self)
        requires
            old(self).wf(),
        ensures
            final(self).wf(),
            Tcod::same_but_chars(*old(self), *final(self)),
            forall|x: int, y: int|
                0 <= x < old(self).w && 0 <= y < old(self).h ==> final(self).spec_char(x, y) is None,
    {
        let mut x: i32 = 0;
        while x < self.w
            invariant
                0 <= x <= self.w,
                self.wf(),
                Tcod::same_but_chars(*old(self), *self),
                forall|i: int, j: int|
                    0 <= i < x && 0 <= j < self.h ==> self.spec_char(i, j) is None,
                forall|i: int, j: int|
                    x <= i < self.w && 0 <= j < self.h ==> self.spec_char(i, j) == old(self).spec_char(i, j),
            decreases self.w - x,
        {
            let mut y: i32 = 0;
            while y < self.h
                invariant
                    0 <= x < self.w,
                    0 <= y <= self.h,
                    self.wf(),
                    Tcod::same_but_chars(*old(self), *self),
                    forall|i: int, j: int|
                        0 <= i < x && 0 <= j < self.h ==> self.spec_char(i, j) is None,
                    forall|j: int| 0 <= j < y ==> self.spec_char(x as int, j) is None,
                    forall|i: int, j: int|
                        x < i < self.w && 0 <= j < self.h ==> self.spec_char(i, j) == old(self).spec_char(i, j),
                    forall|j: int|
                        y <= j < self.h ==> self.spec_char(x as int, j) == old(self).spec_char(
                            x as int,
                            j,
                        ),
                decreases self.h - y,
            {
                let col = &mut self.chars[x as usize];
                col.set(y as usize, Option::None);
                y = y + 1;
            }
            x = x + 1;
        }
    }

    /// Set the fill colour used by `rect`.
    pub fn fill(&mut self, color: Color)
        ensures
            *final(self) == (Tcod { fill: Option::Some(color), ..*old(self) }),
    {
        self.fill = Option::Some(color);
    }

    /// Set the stroke colour used by `put_char`.
    pub fn stroke(&mut self, color: Color)
        ensures
            *final(self) == (Tcod { stroke: Option::Some(color), ..*old(self) }),
    {
        self.stroke = Option::Some(color);
    }

    /// Flood the whole background with one colour (and leave it as the fill
    /// colour).
    pub fn background(&mut self, color: Color)
        requires
            old(self).wf(),
        ensures
            final(self).wf(),
            final(self).w == old(self).w,
            final(self).h == old(self).h,
            final(self).fill == Option::Some(color),
            final(self).stroke == old(self).stroke,
            final(self).chars == old(self).chars,
            forall|i: int, j: int|
                0 <= i < old(self).w && 0 <= j < old(self).h ==> final(self).spec_bg(i, j)
                    == Option::Some(color),
    {
        self.fill(color);
        let w = self.w;
        let h = self.h;
        self.rect(0, 0, w, h);
    }

    /// Paint one cell's background.
    pub fn put_char_background(&mut self, x: i32, y: i32, color: Color)
        requires
            old(self).wf(),
            0 <= x < old(self).w,
            0 <= y < old(self).h,
        ensures
            final(self).wf(),
            final(self).w == old(self).w,
            final(self).h == old(self).h,
            final(self).fill == old(self).fill,
            final(self).stroke == old(self).stroke,
            final(self).chars == old(self).chars,
            final(self).spec_bg(x as int, y as int) == Option::Some(color),
            forall|i: int, j: int|
                0 <= i < old(self).w && 0 <= j < old(self).h && !(i == x && j == y) ==> final(self).spec_bg(i, j) == old(self).spec_bg(i, j),
    {
        let col = &mut self.bg[x as usize];
        col.set(y as usize, Option::Some(color));
    }

    /// Draw one glyph in the current stroke colour.
    pub fn put_char(&mut self, x: i32, y: i32, c: char)
        requires
            old(self).wf(),
            0 <= x < old(self).w,
            0 <= y < old(self).h,
        ensures
            final(self).wf(),
            Tcod::same_but_chars(*old(self), *final(self)),
            final(self).spec_char(x as int, y as int) == Option::Some(
                (c, old(self).spec_stroke_color()),
            ),
            forall|i: int, j: int|
                0 <= i < old(self).w && 0 <= j < old(self).h && !(i == x && j == y) ==> final(self).spec_char(i, j) == old(self).spec_char(i, j),
    {
        let color = match self.stroke {
            Option::Some(c) => c,
            Option::None => white(),
        };
        let col = &mut self.chars[x as usize];
        col.set(y as usize, Option::Some((c, color)));
    }

    /// Fill the rectangle `[x, x+w) x [y, y+h)` of the background with the
    /// current fill colour.
    #[verifier::loop_isolation(false)]
    pub fn rect(&mut self, x: i32, y: i32, w: i32, h: i32)
        requires
            old(self).wf(),
            0 <= x,
            0 <= y,
            0 <= w,
            0 <= h,
            x + w <= old(self).w,
            y + h <= old(self).h,
        ensures
            final(self).wf(),
            final(self).w == old(self).w,
            final(self).h == old(self).h,
            final(self).fill == old(self).fill,
            final(self).stroke == old(self).stroke,
            final(self).chars == old(self).chars,
            forall|i: int, j: int|
                0 <= i < old(self).w && 0 <= j < old(self).h ==> final(self).spec_bg(i, j) == (if x
                    <= i < x + w && y <= j < y + h {
                    old(self).fill
                } else {
                    old(self).spec_bg(i, j)
                }),
    {
        let mut ix = x;
        while ix < x + w
            invariant
                x <= ix <= x + w || ix == x,
                self.wf(),
                self.w == old(self).w,
                self.h == old(self).h,
                self.fill == old(self).fill,
                self.stroke == old(self).stroke,
                self.chars == old(self).chars,
                x + w <= self.w,
                y + h <= self.h,
                forall|i: int, j: int|
                    0 <= i < self.w && 0 <= j < self.h ==> self.spec_bg(i, j) == (if x <= i < ix
                        && y <= j < y + h {
                        old(self).fill
                    } else {
                        old(self).spec_bg(i, j)
                    }),
            decreases x + w - ix,
        {
            let mut iy = y;
            while iy < y + h
                invariant
                    x <= ix < x + w,
                    y <= iy <= y + h || iy == y,
                    self.wf(),
                    self.w == old(self).w,
                    self.h == old(self).h,
                    self.fill == old(self).fill,
                    self.stroke == old(self).stroke,
                    self.chars == old(self).chars,
                    x + w <= self.w,
                    y + h <= self.h,
                    forall|i: int, j: int|
                        0 <= i < self.w && 0 <= j < self.h ==> self.spec_bg(i, j) == (if (x <= i
                            < ix && y <= j < y + h) || (i == ix && y <= j < iy) {
                            old(self).fill
                        } else {
                            old(self).spec_bg(i, j)
                        }),
                decreases y + h - iy,
            {
                let f = self.fill;
                let col = &mut self.bg[ix as usize];
                col.set(iy as usize, f);
                iy = iy + 1;
            }
            ix = ix + 1;
        }
    }
}


/// What one grid cell shows in the text rendering: its glyph if one is
/// drawn, else a shade block for its background colour, else blank.
pub open spec fn spec_render_glyph(t: Tcod, x: int, y: int) -> char {
    match t.spec_char(x, y) {
        Option::Some(p) => p.0,
        Option::None => match t.spec_bg(x, y) {
            Option::Some(c) => {
                if c == crate::colors::spec_black() {
                    '\u{2588}'
                } else if c == spec_color_dark_ground() {
                    '\u{2592}'
                } else if c == spec_color_light_ground() {
                    ' '
                } else if c == spec_color_dark_wall() {
                    '\u{2593}'
                } else if c == spec_color_light_wall() {
                    '\u{2591}'
                } else {
                    ' '
                }
            },
            Option::None => ' ',
        },
    }
}

/// Character `n` of the text rendering: the grid row-major with a newline
/// ending each row.
pub open spec fn spec_render_char_at(t: Tcod, n: int) -> char {
    let x = n % (t.w + 1);
    let y = n / (t.w + 1);
    if x == t.w {
        '\n'
    } else {
        spec_render_glyph(t, x, y)
    }
}

impl Tcod {
    /// Print a run of text on row `y`, anchored by the alignment; glyphs
    /// that would fall outside the console are not drawn.
    #[verifier::loop_isolation(false)]
    pub fn print_ex(&mut self, text: &String, x: i32, y: i32, align: TextAlignment)
        requires
            old(self).wf(),
            0 <= y < old(self).h,
            text@.len() <= 10000000,
            -100000 <= x <= 100000,
        ensures
            final(self).wf(),
            Tcod::same_but_chars(*old(self), *final(self)),
            forall|i: int, j: int|
                0 <= i < old(self).w && 0 <= j < old(self).h ==> final(self).spec_char(i, j) == ({
                    let sx = x + spec_align_offset(align, text@.len() as int);
                    if j == y && sx <= i < sx + text@.len() {
                        Option::Some((text@[i - sx], old(self).spec_stroke_color()))
                    } else {
                        old(self).spec_char(i, j)
                    }
                }),
    {
        let len = text.as_str().unicode_len();
        let sx = x + (match align {
            TextAlignment::Left => 0,
            TextAlignment::Right => len as i32,
            TextAlignment::Center => -(len as i32 / 2),
        });
        let mut k: usize = 0;
        while k < len
            invariant
                0 <= k <= len,
                self.wf(),
                Tcod::same_but_chars(*old(self), *self),
                sx == x + spec_align_offset(align, len as int),
                len == text@.len(),
                forall|i: int, j: int|
                    0 <= i < self.w && 0 <= j < self.h ==> self.spec_char(i, j) == (if j == y && sx
                        <= i < sx + k {
                        Option::Some((text@[i - sx], old(self).spec_stroke_color()))
                    } else {
                        old(self).spec_char(i, j)
                    }),
            decreases len - k,
        {
            let char_x = sx + k as i32;
            if char_x >= self.w {
                proof {
                    assert forall|i: int, j: int|
                        0 <= i < self.w && 0 <= j < self.h implies self.spec_char(i, j) == (if j
                        == y && sx <= i < sx + len {
                        Option::Some((text@[i - sx], old(self).spec_stroke_color()))
                    } else {
                        old(self).spec_char(i, j)
                    }) by {}
                }
                return ;
            }
            if char_x >= 0 {
                let c = text.as_str().get_char(k);
                self.put_char(char_x, y, c);
            }
            k = k + 1;
        }
    }

    /// The number of text rows a string occupies when wrapped at width `w`.
    pub fn get_height_rect(&mut self, text: &String, _x: i32, _y: i32, w: i32, _h: i32) -> (r: i32)
        requires
            w >= 1,
            text@.len() <= 10000000,
        ensures
            *final(self) == *old(self),
            r == text@.len() as int / w as int + 1,
    {
        let len = text.as_str().unicode_len();
        (len as i32 / w) + 1
    }

    /// Print a run of text wrapped at width `w`, starting at `(x, y)`:
    /// character `k` lands at `(x + k % w, y + k / w)`.  Glyphs that would
    /// fall outside the console are not drawn; a zero width draws nothing.
    #[verifier::loop_isolation(false)]
    pub fn print_rect(&mut self, text: &String, x: i32, y: i32, w: i32, _h: i32)
        requires
            old(self).wf(),
            0 <= x <= 100000,
            0 <= y <= 100000,
            0 <= w <= 100000,
            text@.len() <= 10000000,
        ensures
            final(self).wf(),
            Tcod::same_but_chars(*old(self), *final(self)),
            forall|i: int, j: int|
                0 <= i < old(self).w && 0 <= j < old(self).h ==> final(self).spec_char(i, j) == (
                if w > 0 && x <= i < x + w && y <= j && (j - y) * w + (i - x) < text@.len() {
                    Option::Some(
                        (text@[(j - y) * w + (i - x)], old(self).spec_stroke_color()),
                    )
                } else {
                    old(self).spec_char(i, j)
                }),
    {
        if w == 0 {
            return ;
        }
        let len = text.as_str().unicode_len();
        let mut k: usize = 0;
        while k < len
            invariant
                0 <= k <= len,
                0 < w <= 100000,
                self.wf(),
                Tcod::same_but_chars(*old(self), *self),
                len == text@.len(),
                forall|i: int, j: int|
                    0 <= i < self.w && 0 <= j < self.h ==> self.spec_char(i, j) == (if x <= i < x
                        + w && y <= j && (j - y) * w + (i - x) < k {
                        Option::Some((text@[(j - y) * w + (i - x)], old(self).spec_stroke_color()))
                    } else {
                        old(self).spec_char(i, j)
                    }),
            decreases len - k,
        {
            let ki = k as i32;
            let char_x = x + ki % w;
            let char_y = y + ki / w;
            proof {
                vstd::arithmetic::div_mod::lemma_fundamental_div_mod(ki as int, w as int);
                vstd::arithmetic::div_mod::lemma_mod_bound(ki as int, w as int);
                vstd::arithmetic::div_mod::lemma_div_pos_is_pos(ki as int, w as int);
            }
            if char_y >= self.h {
                proof {
                    assert forall|i: int, j: int|
                        0 <= i < self.w && 0 <= j < self.h implies self.spec_char(i, j) == (if x
                        <= i < x + w && y <= j && (j - y) * w + (i - x) < len {
                        Option::Some((text@[(j - y) * w + (i - x)], old(self).spec_stroke_color()))
                    } else {
                        old(self).spec_char(i, j)
                    }) by {
                        if 0 <= i < self.w && 0 <= j < self.h && x <= i < x + w && y <= j && (j - y)
                            * w + (i - x) < len && !((j - y) * w + (i - x) < k) {
                            let kk = (j - y) * w + (i - x);
                            vstd::arithmetic::div_mod::lemma_fundamental_div_mod_converse(
                                kk,
                                w as int,
                                j - y,
                                i - x,
                            );
                            vstd::arithmetic::div_mod::lemma_div_is_ordered(
                                ki as int,
                                kk,
                                w as int,
                            );
                            assert(false);
                        }
                    }
                }
                return ;
            }
            if char_x < self.w {
                let c = text.as_str().get_char(k);
                self.put_char(char_x, char_y, c);
            }
            proof {
                assert forall|i: int, j: int|
                    0 <= i < self.w && 0 <= j < self.h implies self.spec_char(i, j) == (if x <= i
                    < x + w && y <= j && (j - y) * w + (i - x) < k + 1 {
                    Option::Some((text@[(j - y) * w + (i - x)], old(self).spec_stroke_color()))
                } else {
                    old(self).spec_char(i, j)
                }) by {
                    if 0 <= i < self.w && 0 <= j < self.h && x <= i < x + w && y <= j {
                        let kk = (j - y) * w + (i - x);
                        vstd::arithmetic::div_mod::lemma_fundamental_div_mod_converse(
                            kk,
                            w as int,
                            j - y,
                            i - x,
                        );
                        assert((j - y) * (w as int) == (w as int) * (j - y)) by (nonlinear_arith);
                        assert((ki as int / w as int) * (w as int) == (w as int) * (ki as int
                            / w as int)) by (nonlinear_arith);
                        assert(i == char_x as int && j == char_y as int ==> kk == ki as int);
                        assert(kk == ki as int ==> i == char_x as int && j == char_y as int);
                    }
                }
            }
            k = k + 1;
        }
    }

    /// Render the console to text: each row's glyphs (or background shades)
    /// followed by a newline.
    #[verifier::loop_isolation(false)]
    pub fn render_to_string(&self) -> (r: String)
        requires
            self.wf(),
            self.w <= 32767,
            self.h <= 32767,
        ensures
            r@.len() == (self.w + 1) * self.h,
            forall|n: int| 0 <= n < (self.w + 1) * self.h ==> r@[n] == spec_render_char_at(*self, n),
    {
        let ghost wp = self.w as int + 1;
        let mut out: Vec<char> = Vec::new();
        let mut y: i32 = 0;
        proof {
            assert(wp * self.h <= 32768 * 32767) by (nonlinear_arith)
                requires
                    0 < wp <= 32768,
                    0 <= self.h <= 32767,
            ;
        }
        while y < self.h
            invariant
                0 <= y <= self.h,
                out@.len() == y * wp,
                forall|n: int| 0 <= n < out@.len() ==> out@[n] == spec_render_char_at(*self, n),
            decreases self.h - y,
        {
            proof {
                assert(y * wp <= 32766 * 32768 && (y + 1) * wp == y * wp + wp && y * wp >= 0)
                    by (nonlinear_arith)
                    requires
                        0 <= y <= 32766,
                        0 < wp <= 32768,
                ;
            }
            let mut x: i32 = 0;
            while x < self.w
                invariant
                    0 <= y < self.h,
                    0 <= x <= self.w,
                    out@.len() == y * wp + x,
                    forall|n: int| 0 <= n < out@.len() ==> out@[n] == spec_render_char_at(*self, n),
                decreases self.w - x,
            {
                let cell = self.chars[x as usize][y as usize];
                let g = match cell {
                    Option::Some((c, _)) => c,
                    Option::None => {
                        match self.bg[x as usize][y as usize] {
                            Option::Some(col) => {
                                if col == crate::colors::black() {
                                    '\u{2588}'
                                } else if col == color_dark_ground() {
                                    '\u{2592}'
                                } else if col == color_light_ground() {
                                    ' '
                                } else if col == color_dark_wall() {
                                    '\u{2593}'
                                } else if col == color_light_wall() {
                                    '\u{2591}'
                                } else {
                                    ' '
                                }
                            },
                            Option::None => ' ',
                        }
                    },
                };
                proof {
                    let n = y * wp + x;
                    vstd::arithmetic::div_mod::lemma_fundamental_div_mod_converse(
                        n,
                        wp,
                        y as int,
                        x as int,
                    );
                    assert(g == spec_render_char_at(*self, n));
                }
                out.push(g);
                x = x + 1;
            }
            proof {
                let n = y * wp + self.w;
                vstd::arithmetic::div_mod::lemma_fundamental_div_mod_converse(
                    n,
                    wp,
                    y as int,
                    self.w as int,
                );
            }
            out.push('\n');
            y = y + 1;
        }
        proof {
            assert(out@.len() == self.h * wp) by (nonlinear_arith)
                requires
                    out@.len() == self.h * wp,
            ;
            assert(self.h * wp == wp * self.h) by (nonlinear_arith);
            assert((self.w + 1) * self.h == wp * self.h) by (nonlinear_arith)
                requires
                    wp == self.w + 1,
            ;
        }
        string_from_chars(&out)
    }
}


/// Byte `f` (0 to 6) of one cell's record in the raw render buffer: the
/// background colour, the glyph colour, then the glyph itself, with black
/// and NUL standing for unset cells.
pub open spec fn spec_buffer_byte(t: Tcod, x: int, y: int, f: int) -> u8 {
    let bgc = match t.spec_bg(x, y) {
        Option::Some(c) => c,
        Option::None => crate::colors::spec_black(),
    };
    let gc = match t.spec_char(x, y) {
        Option::Some(p) => p,
        Option::None => ('\0', crate::colors::spec_black()),
    };
    if f == 0 {
        bgc.r
    } else if f == 1 {
        bgc.g
    } else if f == 2 {
        bgc.b
    } else if f == 3 {
        gc.1.r
    } else if f == 4 {
        gc.1.g
    } else if f == 5 {
        gc.1.b
    } else {
        ((gc.0 as u32) % 256) as u8
    }
}

/// Byte `n` of the raw render buffer: seven bytes per cell, cells row-major.
pub open spec fn spec_buffer_at(t: Tcod, n: int) -> u8 {
    let ci = n / 7;
    spec_buffer_byte(t, ci % (t.w as int), ci / (t.w as int), n % 7)
}

impl Tcod {
    /// Serialise the console into a raw byte buffer: seven bytes per cell
    /// (background colour, glyph colour, glyph), cells row-major.  Bytes
    /// past the used prefix are untouched.
    #[verifier::loop_isolation(false)]
    pub fn fill_render_buffer(&self, render_buffer: &mut Vec<u8>)
        requires
            self.wf(),
            1 <= self.w <= 4096,
            1 <= self.h <= 4096,
            old(render_buffer)@.len() >= 7 * self.w * self.h,
        ensures
            final(render_buffer)@.len() == old(render_buffer)@.len(),
            forall|n: int|
                0 <= n < 7 * self.w * self.h ==> final(render_buffer)@[n] == spec_buffer_at(
                    *self,
                    n,
                ),
            forall|n: int|
                7 * self.w * self.h <= n < old(render_buffer)@.len() ==> final(render_buffer)@[n]
                    == old(render_buffer)@[n],
    {
        let ghost w = self.w as int;
        let mut i: usize = 0;
        let mut y: i32 = 0;
        proof {
            assert(7 * w * self.h <= 7 * 4096 * 4096) by (nonlinear_arith)
                requires
                    0 < w <= 4096,
                    0 < self.h <= 4096,
            ;
        }
        while y < self.h
            invariant
                0 <= y <= self.h,
                i == 7 * (y * w),
                i <= 7 * w * self.h,
                render_buffer@.len() == old(render_buffer)@.len(),
                forall|n: int| 0 <= n < i ==> render_buffer@[n] == spec_buffer_at(*self, n),
                forall|n: int|
                    i <= n < old(render_buffer)@.len() ==> render_buffer@[n] == old(
                        render_buffer,
                    )@[n],
            decreases self.h - y,
        {
            proof {
                assert((y + 1) * w == y * w + w && 0 <= y * w && (y + 1) * w <= self.h * w && 7 * (
                self.h * w) == 7 * w * self.h) by (nonlinear_arith)
                    requires
                        0 <= y < self.h,
                        0 < w,
                ;
            }
            let mut x: i32 = 0;
            while x < self.w
                invariant
                    0 <= y < self.h,
                    0 <= x <= self.w,
                    i == 7 * (y * w + x),
                    7 * ((y + 1) * w) <= 7 * w * self.h,
                    (y + 1) * w == y * w + w,
                    0 <= y * w,
                    render_buffer@.len() == old(render_buffer)@.len(),
                    forall|n: int| 0 <= n < i ==> render_buffer@[n] == spec_buffer_at(*self, n),
                    forall|n: int|
                        i <= n < old(render_buffer)@.len() ==> render_buffer@[n] == old(
                            render_buffer,
                        )@[n],
                decreases self.w - x,
            {
                let bg_color = match self.bg[x as usize][y as usize] {
                    Option::Some(c) => c,
                    Option::None => crate::colors::black(),
                };
                let (glyph, char_color) = match self.chars[x as usize][y as usize] {
                    Option::Some(p) => p,
                    Option::None => ('\0', crate::colors::black()),
                };
                proof {
                    let ci = y * w + x;
                    vstd::arithmetic::div_mod::lemma_fundamental_div_mod_converse(
                        ci,
                        w,
                        y as int,
                        x as int,
                    );
                    assert forall|f: int|
                        #![trigger (7 * ci + f) / 7]
                        0 <= f < 7 implies (7 * ci + f) / 7 == ci && (7 * ci + f) % 7 == f by {
                        vstd::arithmetic::div_mod::lemma_fundamental_div_mod_converse(
                            7 * ci + f,
                            7,
                            ci,
                            f,
                        );
                    }
                }
                render_buffer.set(i, bg_color.r);
                render_buffer.set(i + 1, bg_color.g);
                render_buffer.set(i + 2, bg_color.b);
                render_buffer.set(i + 3, char_color.r);
                render_buffer.set(i + 4, char_color.g);
                render_buffer.set(i + 5, char_color.b);
                let gb: u32 = glyph as u32;
                render_buffer.set(i + 6, (gb % 256) as u8);
                i = i + 7;
                x = x + 1;
            }
            y = y + 1;
        }
        proof {
            assert(7 * (self.h as int * w) == 7 * w * self.h) by (nonlinear_arith);
        }
    }
}

} // verus!
