use vstd::prelude::*;

use crate::colors::{spec_white, white, Color};
use crate::config::{MSG_HEIGHT, MSG_WIDTH, MSG_X, PANEL_Y};
use crate::draw::{spec_align_offset, Tcod, TextAlignment};

verus! {

/// The decimal digit character for `d`.
pub open spec fn digit_char(d: int) -> char {
    if d == 0 {
        '0'
    } else if d == 1 {
        '1'
    } else if d == 2 {
        '2'
    } else if d == 3 {
        '3'
    } else if d == 4 {
        '4'
    } else if d == 5 {
        '5'
    } else if d == 6 {
        '6'
    } else if d == 7 {
        '7'
    } else if d == 8 {
        '8'
    } else {
        '9'
    }
}

/// The decimal digits of a non-negative number, most significant first.
pub open spec fn dec_digits(n: int) -> Seq<char>
    decreases n,
{
    if n < 10 {
        seq![digit_char(n)]
    } else {
        dec_digits(n / 10).push(digit_char(n % 10))
    }
}

/// The decimal rendering of an integer: a minus sign before the digits of
/// its absolute value.
pub open spec fn dec_int(n: int) -> Seq<char> {
    if n < 0 {
        seq!['-'] + dec_digits(-n)
    } else {
        dec_digits(n)
    }
}

fn digit_str(d: u32) -> (s: &'static str)
    requires
        d < 10,
    ensures
        s@ == seq![digit_char(d as int)],
{
    proof {
        reveal_strlit("0");
        reveal_strlit("1");
        reveal_strlit("2");
        reveal_strlit("3");
        reveal_strlit("4");
        reveal_strlit("5");
        reveal_strlit("6");
        reveal_strlit("7");
        reveal_strlit("8");
        reveal_strlit("9");
    }
    let s = if d == 0 {
        "0"
    } else if d == 1 {
        "1"
    } else if d == 2 {
        "2"
    } else if d == 3 {
        "3"
    } else if d == 4 {
        "4"
    } else if d == 5 {
        "5"
    } else if d == 6 {
        "6"
    } else if d == 7 {
        "7"
    } else if d == 8 {
        "8"
    } else {
        "9"
    };
    proof {
        assert(s@ =~= seq![digit_char(d as int)]);
    }
    s
}

/// Render a non-negative number in decimal.
pub fn u32_to_string(n: u32) -> (s: String)
    ensures
        s@ == dec_digits(n as int),
    decreases n,
{
    if n < 10 {
        let s = digit_str(n).to_owned();
        s
    } else {
        let mut s = u32_to_string(n / 10);
        s.append(digit_str(n % 10));
        s
    }
}

/// Render an integer in decimal, minus sign included.
pub fn i32_to_string(n: i32) -> (s: String)
    requires
        n > i32::MIN,
    ensures
        s@ == dec_int(n as int),
{
    if n < 0 {
        proof {
            reveal_strlit("-");
        }
        let mut s = "-".to_owned();
        proof {
            assert(s@ =~= seq!['-']);
        }
        s.append(u32_to_string((-n) as u32).as_str());
        s
    } else {
        u32_to_string(n as u32)
    }
}

/// The combat and event log: an append-only list of `(text, colour)`
/// records.
pub struct Messages {
    pub messages: Vec<(String, Color)>,
}

impl Messages {
    /// Every logged text is short enough for the drawing routines.
    pub open spec fn wf(&self) -> bool {
        forall|i: int| 0 <= i < self.messages@.len() ==> (#[trigger] self.messages@[i]).0@.len() <= 100000
    }

    pub fn new() -> (r: Messages)
        ensures
            r.messages@ == Seq::<(String, Color)>::empty(),
            r.wf(),
    {
        Messages { messages: Vec::new() }
    }

    /// Append one record to the log.
    pub fn add(&mut self, message: String, color: Color)
        requires
            old(self).wf(),
            message@.len() <= 100000,
        ensures
            final(self).wf(),
            final(self).messages@ == old(self).messages@.push((message, color)),
            final(self).messages@.subrange(0, old(self).messages@.len() as int) == old(
                self,
            ).messages@,
    {
        self.messages.push((message, color));
        proof {
            assert(self.messages@.subrange(0, old(self).messages@.len() as int) =~= old(
                self,
            ).messages@);
        }
        proof {
            assert forall|i: int| 0 <= i < self.messages@.len() implies (#[trigger] self
                .messages@[i]).0@.len() <= 100000 by {
                if i < old(self).messages@.len() {
                    assert(self.messages@[i] == old(self).messages@[i]);
                }
            }
        }
    }

    /// The number of logged records.
    pub fn len(&self) -> (r: usize)
        ensures
            r == self.messages@.len(),
    {
        self.messages.len()
    }

    /// One logged record.
    pub fn get(&self, i: usize) -> (r: &(String, Color))
        requires
            i < self.messages@.len(),
        ensures
            *r == self.messages@[i as int],
    {
        &self.messages[i]
    }

    /// Print the latest messages into the panel, newest at the bottom,
    /// stopping once the panel rows are used up.  Only glyphs and the
    /// stroke colour change.
    #[verifier::loop_isolation(false)]
    pub fn draw(&self, tcod: &mut Tcod)
        requires
            self.wf(),
            old(tcod).wf(),
            PANEL_Y + MSG_HEIGHT < old(tcod).h,
        ensures
            final(tcod).wf(),
            final(tcod).w == old(tcod).w,
            final(tcod).h == old(tcod).h,
            final(tcod).bg == old(tcod).bg,
            final(tcod).fill == old(tcod).fill,
            forall|i: int, j: int|
                0 <= i < old(tcod).w && 0 <= j < PANEL_Y ==> final(tcod).spec_char(i, j) == old(
                    tcod,
                ).spec_char(i, j),
    {
        let mut y: i32 = MSG_HEIGHT;
        let mut idx: usize = self.messages.len();
        while idx > 0
            invariant
                idx <= self.messages@.len(),
                0 <= y <= MSG_HEIGHT,
                tcod.wf(),
                tcod.w == old(tcod).w,
                tcod.h == old(tcod).h,
                tcod.bg == old(tcod).bg,
                tcod.fill == old(tcod).fill,
                forall|i: int, j: int|
                    0 <= i < old(tcod).w && 0 <= j < PANEL_Y ==> tcod.spec_char(i, j) == old(
                        tcod,
                    ).spec_char(i, j),
            decreases idx,
        {
            idx = idx - 1;
            proof {
                assert(self.messages@[idx as int].0@.len() <= 100000);
            }
            let msg = &self.messages[idx].0;
            let color = self.messages[idx].1;
            let msg_height = tcod.get_height_rect(msg, MSG_X, y, MSG_WIDTH, 0);
            proof {
                let len = msg@.len() as int;
                assert(MSG_WIDTH == 57);
                assert(len <= 100000);
                assert(msg_height == len / 57 + 1);
                vstd::arithmetic::div_mod::lemma_div_is_ordered(len, 100000, 57);
                vstd::arithmetic::div_mod::lemma_div_pos_is_pos(len, 57);
                assert(1 <= msg_height <= 100000);
            }
            y = y - msg_height;
            if y < 0 {
                return ;
            }
            tcod.stroke(color);
            tcod.print_rect(msg, MSG_X, PANEL_Y + y, MSG_WIDTH, 0);
        }
    }
}

/// The width of the filled part of a status bar: the value's share of the
/// total width, clamped to the bar.
pub open spec fn spec_bar_width(value: int, maximum: int, total_width: int) -> int {
    if maximum <= 0 || value <= 0 {
        0
    } else if value * total_width / maximum > total_width {
        total_width
    } else {
        value * total_width / maximum
    }
}

/// The label printed over a status bar.
pub open spec fn bar_label(name: Seq<char>, value: int, maximum: int) -> Seq<char> {
    name + ": "@ + dec_int(value) + "/"@ + dec_int(maximum)
}

/// Draw a status bar (hit points, experience, and the like) onto the
/// panel: the back colour across the whole bar, the bar colour over the
/// value's share of it, and the centred `name: value/maximum` label.
pub fn render_bar(
    tcod: &mut Tcod,
    x: i32,
    y: i32,
    total_width: i32,
    name: &str,
    value: i32,
    maximum: i32,
    bar_color: Color,
    back_color: Color,
)
    requires
        old(tcod).wf(),
        0 <= x <= 50000,
        1 <= total_width <= 1000,
        x + total_width <= old(tcod).w,
        0 <= PANEL_Y + y < old(tcod).h,
        -1000000 <= value <= 1000000,
        -1000000 <= maximum <= 1000000,
        name@.len() <= 1000,
    ensures
        final(tcod).wf(),
        final(tcod).w == old(tcod).w,
        final(tcod).h == old(tcod).h,
        final(tcod).fill == Option::Some(bar_color),
        final(tcod).stroke == Option::Some(spec_white()),
        forall|i: int, j: int|
            0 <= i < old(tcod).w && 0 <= j < old(tcod).h ==> final(tcod).spec_bg(i, j) == (if j
                == PANEL_Y + y && x <= i < x + total_width {
                Option::Some(
                    if i - x < spec_bar_width(value as int, maximum as int, total_width as int) {
                        bar_color
                    } else {
                        back_color
                    },
                )
            } else {
                old(tcod).spec_bg(i, j)
            }),
        forall|i: int, j: int|
            0 <= i < old(tcod).w && 0 <= j < old(tcod).h ==> final(tcod).spec_char(i, j) == ({
                let label = bar_label(name@, value as int, maximum as int);
                let sx = x + total_width / 2 + spec_align_offset(
                    TextAlignment::Center,
                    label.len() as int,
                );
                if j == PANEL_Y + y && sx <= i < sx + label.len() {
                    Option::Some((label[i - sx], spec_white()))
                } else {
                    old(tcod).spec_char(i, j)
                }
            }),
{
    let y = PANEL_Y + y;

    let bar_width = if maximum <= 0 || value <= 0 {
        0
    } else {
        proof {
            assert(0 <= value * total_width <= 1000000 * 1000) by (nonlinear_arith)
                requires
                    0 < value <= 1000000,
                    1 <= total_width <= 1000,
            ;
        }
        let bw = value * total_width / maximum;
        if bw > total_width {
            total_width
        } else {
            bw
        }
    };

    tcod.fill(back_color);
    tcod.rect(x, y, total_width, 1);

    tcod.fill(bar_color);
    if bar_width > 0 {
        tcod.rect(x, y, bar_width, 1);
    }

    tcod.stroke(white());
    proof {
        reveal_strlit(": ");
        reveal_strlit("/");
    }
    let mut label = name.to_owned();
    label.append(": ");
    label.append(i32_to_string(value).as_str());
    label.append("/");
    label.append(i32_to_string(maximum).as_str());
    proof {
        assert(label@ == bar_label(name@, value as int, maximum as int));
        assert(dec_int(value as int).len() <= 8 && dec_int(maximum as int).len() <= 8) by {
            reveal_with_fuel(pow10, 8);
            assert(pow10(7) == 10000000);
            lemma_dec_int_len(value as int, 7);
            lemma_dec_int_len(maximum as int, 7);
        }
    }
    tcod.print_ex(&label, x + total_width / 2, y, TextAlignment::Center);
}

/// Ten to the `k`.
pub open spec fn pow10(k: nat) -> int
    decreases k,
{
    if k == 0 {
        1
    } else {
        10 * pow10((k - 1) as nat)
    }
}

proof fn lemma_pow10_pos(k: nat)
    ensures
        pow10(k) >= 1,
    decreases k,
{
    if k > 0 {
        lemma_pow10_pos((k - 1) as nat);
    }
}

/// A number below ten to the `k` renders in at most `k` digits.
pub proof fn lemma_dec_digits_len(n: int, k: nat)
    requires
        0 <= n,
        1 <= k,
        n < pow10(k),
    ensures
        dec_digits(n).len() <= k,
    decreases k,
{
    if n >= 10 {
        lemma_pow10_pos((k - 1) as nat);
        vstd::arithmetic::div_mod::lemma_fundamental_div_mod(n, 10);
        vstd::arithmetic::div_mod::lemma_mod_bound(n, 10);
        assert(n / 10 < pow10((k - 1) as nat));
        lemma_dec_digits_len(n / 10, (k - 1) as nat);
    }
}

/// An integer of absolute value below ten to the `k` renders in at most
/// `k + 1` characters.
pub proof fn lemma_dec_int_len(n: int, k: nat)
    requires
        1 <= k,
        -pow10(k) < n < pow10(k),
    ensures
        dec_int(n).len() <= k + 1,
{
    if n < 0 {
        lemma_dec_digits_len(-n, k);
    } else {
        lemma_dec_digits_len(n, k);
    }
}

} // verus!
