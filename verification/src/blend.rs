//! Source-over blending of one pixel, in exact arithmetic.
//!
//! With alpha `a` between 0 and 1 and color `C`, drawing a foreground `f` over a
//! background `b` gives
//!
//! ```text
//! a = a_f + a_b (1 - a_f)
//! C = (a_f C_f + a_b (1 - a_f) C_b) / a
//! ```
//!
//! The accumulator of a canvas pixel holds the numerators of `a` and of `a C` over one
//! common denominator, the `unit`. A foreground pixel has alpha `A / 255`, so one blending
//! step multiplies the unit by 255 and nothing is ever rounded. Only the finished pixel is
//! cut down to whole channels.

use vstd::prelude::*;
use crate::bignat::BigNat;
use crate::config::Pixel;

verus! {

/// The accumulated color of a canvas pixel.
pub struct Accum {
    /// Alpha times red, in units.
    pub red: BigNat,
    /// Alpha times green, in units.
    pub green: BigNat,
    /// Alpha times blue, in units.
    pub blue: BigNat,
    /// Alpha, in units.
    pub alpha: BigNat,
    /// How many units make 1.
    pub unit: BigNat,
}

/// An accumulator as a mathematical value.
pub struct AccumView {
    pub red: nat,
    pub green: nat,
    pub blue: nat,
    pub alpha: nat,
    pub unit: nat,
}

impl View for Accum {
    type V = AccumView;

    open spec fn view(&self) -> AccumView {
        AccumView {
            red: self.red@,
            green: self.green@,
            blue: self.blue@,
            alpha: self.alpha@,
            unit: self.unit@,
        }
    }
}

/// Alpha is at most 1 and no color is above 255.
pub open spec fn accum_wf(acc: AccumView) -> bool {
    &&& acc.unit > 0
    &&& acc.alpha <= acc.unit
    &&& acc.red <= 255 * acc.alpha
    &&& acc.green <= 255 * acc.alpha
    &&& acc.blue <= 255 * acc.alpha
}

/// The fully transparent pixel that every canvas starts from.
pub open spec fn blank() -> AccumView {
    AccumView { red: 0, green: 0, blue: 0, alpha: 0, unit: 1 }
}

/// The background `bg` with the pixel `fg` drawn over it.
pub open spec fn over(bg: AccumView, fg: Pixel) -> AccumView {
    let a = fg.3 as nat;
    let rest = (255 - fg.3) as nat;
    AccumView {
        red: a * (fg.0 as nat) * bg.unit + rest * bg.red,
        green: a * (fg.1 as nat) * bg.unit + rest * bg.green,
        blue: a * (fg.2 as nat) * bg.unit + rest * bg.blue,
        alpha: a * bg.unit + rest * bg.alpha,
        unit: 255 * bg.unit,
    }
}

/// A color channel of the finished pixel: the color divided by alpha, rounded down; 0 where
/// the pixel is fully transparent.
pub open spec fn channel(amount: nat, alpha: nat) -> u8 {
    if alpha == 0 {
        0u8
    } else {
        (amount / alpha) as u8
    }
}

/// The finished pixel: its color channels, and alpha scaled to 255 and rounded down.
pub open spec fn finalize(acc: AccumView) -> Pixel {
    (
        channel(acc.red, acc.alpha),
        channel(acc.green, acc.alpha),
        channel(acc.blue, acc.alpha),
        (255 * acc.alpha / acc.unit) as u8,
    )
}

/// Blending keeps an accumulator well-formed.
pub proof fn lemma_over_wf(bg: AccumView, fg: Pixel)
    requires
        accum_wf(bg),
    ensures
        accum_wf(over(bg, fg)),
{
    let a = fg.3 as int;
    let u = bg.unit as int;
    let al = bg.alpha as int;
    assert(255 * u > 0);
    assert(a * u + (255 - a) * al <= 255 * u) by (nonlinear_arith)
        requires
            0 <= a <= 255,
            0 <= al <= u,
    ;
    lemma_color_bound(a, fg.0 as int, u, al, bg.red as int);
    lemma_color_bound(a, fg.1 as int, u, al, bg.green as int);
    lemma_color_bound(a, fg.2 as int, u, al, bg.blue as int);
}

/// A blended color stays at or below 255 times the blended alpha.
proof fn lemma_color_bound(a: int, c: int, u: int, al: int, amount: int)
    requires
        0 <= a <= 255,
        0 <= c <= 255,
        0 <= al <= u,
        0 <= amount <= 255 * al,
    ensures
        0 <= a * c * u + (255 - a) * amount <= 255 * (a * u + (255 - a) * al),
{
    assert(a * c * u <= 255 * (a * u)) by (nonlinear_arith)
        requires
            0 <= a,
            0 <= c <= 255,
            0 <= u,
    ;
    assert((255 - a) * amount <= 255 * ((255 - a) * al)) by (nonlinear_arith)
        requires
            0 <= 255 - a,
            0 <= amount <= 255 * al,
    ;
    assert(255 * (a * u + (255 - a) * al) == 255 * (a * u) + 255 * ((255 - a) * al))
        by (nonlinear_arith);
    assert(0 <= a * c * u) by (nonlinear_arith)
        requires
            0 <= a,
            0 <= c,
            0 <= u,
    ;
    assert(0 <= (255 - a) * amount) by (nonlinear_arith)
        requires
            0 <= 255 - a,
            0 <= amount,
    ;
}

/// An opaque pixel hides whatever is under it: the finished pixel is the one drawn.
pub proof fn lemma_opaque_covers(bg: AccumView, fg: Pixel)
    requires
        accum_wf(bg),
        fg.3 == 255,
    ensures
        finalize(over(bg, fg)) == fg,
{
    let u = bg.unit as int;
    let k = 255 * u;
    let drawn = over(bg, fg);
    assert(drawn.alpha == k) by (nonlinear_arith)
        requires
            drawn.alpha == 255 * u + 0 * bg.alpha,
            k == 255 * u,
    ;
    assert(drawn.unit == k);
    lemma_cancel(fg.0 as int, k);
    lemma_cancel(fg.1 as int, k);
    lemma_cancel(fg.2 as int, k);
    lemma_cancel(255, k);
    assert(drawn.red == fg.0 * k) by (nonlinear_arith)
        requires
            drawn.red == 255 * fg.0 * u + 0 * bg.red,
            k == 255 * u,
    ;
    assert(drawn.green == fg.1 * k) by (nonlinear_arith)
        requires
            drawn.green == 255 * fg.1 * u + 0 * bg.green,
            k == 255 * u,
    ;
    assert(drawn.blue == fg.2 * k) by (nonlinear_arith)
        requires
            drawn.blue == 255 * fg.2 * u + 0 * bg.blue,
            k == 255 * u,
    ;
}

/// A fully transparent pixel changes nothing: the finished pixel is that of the background.
pub proof fn lemma_transparent_keeps(bg: AccumView, fg: Pixel)
    requires
        accum_wf(bg),
        fg.3 == 0,
    ensures
        finalize(over(bg, fg)) == finalize(bg),
{
    let drawn = over(bg, fg);
    assert(drawn.alpha == 255 * bg.alpha) by (nonlinear_arith)
        requires
            drawn.alpha == 0 * bg.unit + 255 * bg.alpha,
    ;
    assert(drawn.red == 255 * bg.red) by (nonlinear_arith)
        requires
            drawn.red == 0 * fg.0 * bg.unit + 255 * bg.red,
    ;
    assert(drawn.green == 255 * bg.green) by (nonlinear_arith)
        requires
            drawn.green == 0 * fg.1 * bg.unit + 255 * bg.green,
    ;
    assert(drawn.blue == 255 * bg.blue) by (nonlinear_arith)
        requires
            drawn.blue == 0 * fg.2 * bg.unit + 255 * bg.blue,
    ;
    if bg.alpha > 0 {
        lemma_cancel_common(bg.red as int, bg.alpha as int);
        lemma_cancel_common(bg.green as int, bg.alpha as int);
        lemma_cancel_common(bg.blue as int, bg.alpha as int);
    }
    lemma_cancel_common(255 * (bg.alpha as int), bg.unit as int);
}

/// `c * k / k` is `c`.
proof fn lemma_cancel(c: int, k: int)
    requires
        k > 0,
        c >= 0,
    ensures
        (c * k) / k == c,
{
    vstd::arithmetic::div_mod::lemma_fundamental_div_mod_converse(c * k, k, c, 0);
}

/// `(255 * x) / (255 * d)` is `x / d`.
proof fn lemma_cancel_common(x: int, d: int)
    requires
        d > 0,
        x >= 0,
    ensures
        (255 * x) / (255 * d) == x / d,
{
    let q = x / d;
    let r = x % d;
    vstd::arithmetic::div_mod::lemma_fundamental_div_mod(x, d);
    assert(0 <= r < d) by {
        vstd::arithmetic::div_mod::lemma_mod_pos_bound(x, d);
    }
    assert(255 * x == q * (255 * d) + 255 * r) by (nonlinear_arith)
        requires
            x == d * q + r,
    ;
    vstd::arithmetic::div_mod::lemma_fundamental_div_mod_converse(255 * x, 255 * d, q, 255 * r);
}

impl Accum {
    /// The fully transparent pixel.
    pub fn blank() -> (out: Accum)
        ensures
            out@ == blank(),
    {
        Accum {
            red: BigNat::small(0),
            green: BigNat::small(0),
            blue: BigNat::small(0),
            alpha: BigNat::small(0),
            unit: BigNat::small(1),
        }
    }

    /// This pixel with `fg` drawn over it.
    pub fn over(&self, fg: Pixel) -> (out: Accum)
        ensures
            out@ == over(self@, fg),
    {
        let a = fg.3 as u32;
        let rest = 255 - a;
        assert(a * (fg.0 as u32) <= 255 * 255 && a * (fg.1 as u32) <= 255 * 255 && a * (
        fg.2 as u32) <= 255 * 255) by (nonlinear_arith)
            requires
                a <= 255,
                fg.0 <= 255,
                fg.1 <= 255,
                fg.2 <= 255,
        ;
        let red = BigNat::combine(&self.unit, a * (fg.0 as u32), &self.red, rest);
        let green = BigNat::combine(&self.unit, a * (fg.1 as u32), &self.green, rest);
        let blue = BigNat::combine(&self.unit, a * (fg.2 as u32), &self.blue, rest);
        let alpha = BigNat::combine(&self.unit, a, &self.alpha, rest);
        let unit = BigNat::combine(&self.unit, 255, &self.unit, 0);
        assert(unit@ == 255 * self.unit@) by (nonlinear_arith)
            requires
                unit@ == 255 * self.unit@ + 0 * self.unit@,
        ;
        Accum { red, green, blue, alpha, unit }
    }

    /// The finished pixel.
    pub fn finalize(&self) -> (out: Pixel)
        requires
            accum_wf(self@),
        ensures
            out == finalize(self@),
    {
        let zero = BigNat::small(0);
        let scaled = BigNat::combine(&self.alpha, 255, &self.alpha, 0);
        assert(scaled@ == 255 * self.alpha@) by (nonlinear_arith)
            requires
                scaled@ == 255 * self.alpha@ + 0 * self.alpha@,
        ;
        let alpha = BigNat::quotient(&scaled, &self.unit);
        if BigNat::le(&self.alpha, &zero) {
            (0, 0, 0, alpha)
        } else {
            (
                BigNat::quotient(&self.red, &self.alpha),
                BigNat::quotient(&self.green, &self.alpha),
                BigNat::quotient(&self.blue, &self.alpha),
                alpha,
            )
        }
    }
}

} // verus!
