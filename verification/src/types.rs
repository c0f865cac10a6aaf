//! Scalars, points, rectangles and colours.
//!
//! Every scalar quantity of the document (a length, an angle, an opacity) is a
//! fixed-point number: a count of thousandths held in an `i32`. Arithmetic on
//! scalars is carried out on unbounded integers and brought back into range by
//! `clamp_scalar`.

use vstd::prelude::*;

verus! {

/// A fixed-point number: a count of thousandths.
pub type Scalar = i32;

/// The scalar that stands for `1.0`.
pub const UNIT: Scalar = 1000;

/// The nearest scalar to an integer: the integer itself when it is in range,
/// else the end of the range on its side.
pub open spec fn clamp_int(v: int) -> int {
    if v < i32::MIN as int {
        i32::MIN as int
    } else if v > i32::MAX as int {
        i32::MAX as int
    } else {
        v
    }
}

/// Brings a wide intermediate result back into the scalar range.
pub fn clamp_scalar(v: i128) -> (r: Scalar)
    ensures
        r as int == clamp_int(v as int),
{
    if v < -2147483648i128 {
        i32::MIN
    } else if v > 2147483647i128 {
        i32::MAX
    } else {
        v as i32
    }
}

/// Division that rounds toward negative infinity, for a positive divisor.
pub fn floor_div(a: i128, d: i128) -> (q: i128)
    requires
        d > 0,
        i128::MIN < a,
    ensures
        q as int == (a as int) / (d as int),
{
    if a >= 0 {
        a / d
    } else {
        let m: i128 = -a;
        let t: i128 = m / d;
        let r: i128 = m % d;
        proof {
            lemma_floor_of_negative(a as int, d as int);
        }
        if r == 0 {
            -t
        } else {
            -t - 1
        }
    }
}

/// Euclidean division of a negative dividend, from the division of its negation.
proof fn lemma_floor_of_negative(a: int, d: int)
    requires
        a < 0,
        d > 0,
    ensures
        (-a) % d == 0 ==> a / d == -((-a) / d),
        (-a) % d != 0 ==> a / d == -((-a) / d) - 1,
{
    let m = -a;
    let t = m / d;
    let r = m % d;
    assert(m == d * t + r && 0 <= r < d) by {
        vstd::arithmetic::div_mod::lemma_fundamental_div_mod(m, d);
        vstd::arithmetic::div_mod::lemma_mod_bound(m, d);
    }
    if r == 0 {
        assert(a == d * (-t) + 0) by (nonlinear_arith)
            requires
                m == d * t + r,
                r == 0,
                a == -m,
        ;
        vstd::arithmetic::div_mod::lemma_fundamental_div_mod_converse(a, d, -t, 0);
    } else {
        assert(a == d * (-t - 1) + (d - r)) by (nonlinear_arith)
            requires
                m == d * t + r,
                a == -m,
        ;
        vstd::arithmetic::div_mod::lemma_fundamental_div_mod_converse(a, d, -t - 1, d - r);
    }
}

/// A position in the document.
#[derive(Clone, Copy, Debug, PartialEq, Eq, Structural)]
pub struct Point {
    pub x: Scalar,
    pub y: Scalar,
}

/// An extent.
#[derive(Clone, Copy, Debug, PartialEq, Eq, Structural)]
pub struct Size {
    pub width: Scalar,
    pub height: Scalar,
}

/// An axis-aligned rectangle: its top-left corner and its extent.
#[derive(Clone, Copy, Debug, PartialEq, Eq, Structural)]
pub struct Rect {
    pub x: Scalar,
    pub y: Scalar,
    pub width: Scalar,
    pub height: Scalar,
}

impl Rect {
    /// Whether a point lies inside the rectangle, edges included.
    pub open spec fn spec_contains(self, p: Point) -> bool {
        &&& self.x <= p.x <= self.x + self.width
        &&& self.y <= p.y <= self.y + self.height
    }

    /// Whether a point lies inside the rectangle, edges included.
    pub fn contains(&self, p: Point) -> (r: bool)
        ensures
            r == self.spec_contains(p),
    {
        let right: i64 = self.x as i64 + self.width as i64;
        let bottom: i64 = self.y as i64 + self.height as i64;
        p.x >= self.x && p.x as i64 <= right && p.y >= self.y && p.y as i64 <= bottom
    }

    /// The rectangle spanned by two opposite corners, given in any order. An
    /// extent too wide for a scalar is clamped.
    pub fn from_two_points(a: Point, b: Point) -> (r: Rect)
        ensures
            r.x == if a.x <= b.x { a.x } else { b.x },
            r.y == if a.y <= b.y { a.y } else { b.y },
            r.width as int == clamp_int(if a.x <= b.x { b.x - a.x } else { a.x - b.x }),
            r.height as int == clamp_int(if a.y <= b.y { b.y - a.y } else { a.y - b.y }),
    {
        let x: Scalar = if a.x <= b.x { a.x } else { b.x };
        let y: Scalar = if a.y <= b.y { a.y } else { b.y };
        let w: i128 = if a.x <= b.x { b.x as i128 - a.x as i128 } else { a.x as i128 - b.x as i128 };
        let h: i128 = if a.y <= b.y { b.y as i128 - a.y as i128 } else { a.y as i128 - b.y as i128 };
        Rect { x, y, width: clamp_scalar(w), height: clamp_scalar(h) }
    }
}

/// A colour: three 8-bit channels and an alpha scalar between 0 and `UNIT`.
#[derive(Clone, Copy, Debug, PartialEq, Eq, Structural)]
pub struct Color {
    pub r: u8,
    pub g: u8,
    pub b: u8,
    pub a: Scalar,
}

impl Color {
    /// The colour as a style of a style sheet: `rgba`, and in brackets the
    /// three channels and the alpha as decimal numbers, with commas between.
    pub open spec fn css(self) -> Seq<char> {
        "rgba("@ + crate::text::decimal_text(self.r as nat) + ","@ + crate::text::decimal_text(
            self.g as nat,
        ) + ","@ + crate::text::decimal_text(self.b as nat) + ","@ + crate::text::scalar_text(
            self.a,
        ) + ")"@
    }

    /// The colour as a style of a style sheet.
    pub fn to_css(&self) -> (r: String)
        ensures
            r@ == self.css(),
    {
        let mut r = String::from_str("rgba(");
        let red = crate::text::decimal(self.r as u64);
        r.append(red.as_str());
        r.append(",");
        let green = crate::text::decimal(self.g as u64);
        r.append(green.as_str());
        r.append(",");
        let blue = crate::text::decimal(self.b as u64);
        r.append(blue.as_str());
        r.append(",");
        let alpha = crate::text::scalar_to_string(self.a);
        r.append(alpha.as_str());
        r.append(")");
        r
    }

    /// Opaque white.
    pub fn white() -> (c: Color)
        ensures
            c == (Color { r: 255, g: 255, b: 255, a: UNIT }),
    {
        Color { r: 255, g: 255, b: 255, a: UNIT }
    }

    /// Opaque black.
    pub fn black() -> (c: Color)
        ensures
            c == (Color { r: 0, g: 0, b: 0, a: UNIT }),
    {
        Color { r: 0, g: 0, b: 0, a: UNIT }
    }

    /// Black of no opacity.
    pub fn transparent() -> (c: Color)
        ensures
            c == (Color { r: 0, g: 0, b: 0, a: 0 }),
    {
        Color { r: 0, g: 0, b: 0, a: 0 }
    }

    /// The blue that marks a selection.
    pub fn blue() -> (c: Color)
        ensures
            c == (Color { r: 59, g: 130, b: 246, a: UNIT }),
    {
        Color { r: 59, g: 130, b: 246, a: UNIT }
    }
}

} // verus!
