//! Pixel values and their shading.

use std::cmp::Ordering;
use std::ops::{Index, Mul};
use vstd::prelude::*;
use vstd::std_specs::cmp::{PartialEqSpecImpl, PartialOrdSpecImpl};
use vstd::std_specs::ops::MulSpecImpl;
use vstd::string::StringExecFns;

verus! {

/// A pixel value: red, green, blue and alpha, one byte each, in that order.
///
/// Colors are ordered lexicographically on (red, green, blue, alpha).
#[derive(Debug, Clone, Copy, Eq, Ord)]
pub struct Color(pub [u8; 4]);

/// A scalar light intensity in fixed point: the value is `self.0 / 65536`.
#[derive(Debug, Clone, Copy, PartialEq, Eq, Structural)]
pub struct Intensity(pub i32);

impl Intensity {
    /// The raw value that stands for the intensity 1.
    pub const ONE: i32 = 65536;
}

/// One channel `c` scaled by `k`: the product rounded down, held to `0..=255`.
pub open spec fn scale_channel(c: u8, k: Intensity) -> u8 {
    let scaled = (c as int * k.0 as int) / 65536;
    if scaled < 0 {
        0u8
    } else if scaled > 255 {
        255u8
    } else {
        scaled as u8
    }
}

fn scaled_channel(c: u8, k: Intensity) -> (v: u8)
    ensures
        v == scale_channel(c, k),
{
    if k.0 <= 0 {
        assert((c as int * k.0 as int) / 65536 <= 0) by (nonlinear_arith)
            requires
                c >= 0,
                k.0 <= 0,
        ;
        assert(c as int * k.0 as int == 0 ==> (c as int * k.0 as int) / 65536 == 0);
        0
    } else {
        assert(0 <= c as int * k.0 as int <= 255 * 0x7fff_ffff) by (nonlinear_arith)
            requires
                0 <= c <= 255,
                0 < k.0 <= 0x7fff_ffff,
        ;
        let scaled: i64 = (c as i64 * k.0 as i64) / 65536;
        if scaled > 255 {
            255
        } else {
            scaled as u8
        }
    }
}

impl Color {
    /// Transparent black.
    pub fn new() -> (c: Self)
        ensures
            c == Color([0u8, 0u8, 0u8, 0u8]),
    {
        Color([0, 0, 0, 0])
    }

    /// The color with the given channels.
    pub fn from_rgba(r: u8, g: u8, b: u8, a: u8) -> (c: Self)
        ensures
            c == Color([r, g, b, a]),
            c.0[0] == r,
            c.0[1] == g,
            c.0[2] == b,
            c.0[3] == a,
    {
        Color([r, g, b, a])
    }

    /// The red channel.
    pub fn r(self) -> (v: u8)
        ensures
            v == self.0[0],
    {
        self.0[0]
    }

    /// The green channel.
    pub fn g(self) -> (v: u8)
        ensures
            v == self.0[1],
    {
        self.0[1]
    }

    /// The blue channel.
    pub fn b(self) -> (v: u8)
        ensures
            v == self.0[2],
    {
        self.0[2]
    }

    /// The alpha channel.
    pub fn a(self) -> (v: u8)
        ensures
            v == self.0[3],
    {
        self.0[3]
    }

    /// This color lit with intensity `k`: red, green and blue are scaled and
    /// held to a byte, alpha is kept.
    pub open spec fn shaded(self, k: Intensity) -> Color {
        Color(
            [
                scale_channel(self.0[0], k),
                scale_channel(self.0[1], k),
                scale_channel(self.0[2], k),
                self.0[3],
            ],
        )
    }
}

impl Default for Color {
    fn default() -> (c: Self)
        ensures
            c == Color([0u8, 0u8, 0u8, 0u8]),
    {
        Color::new()
    }
}

impl PartialEq for Color {
    fn eq(&self, other: &Self) -> (same: bool) {
        let same = self.0[0] == other.0[0] && self.0[1] == other.0[1] && self.0[2] == other.0[2]
            && self.0[3] == other.0[3];
        proof {
            if same {
                assert(self.0 =~= other.0);
            }
        }
        same
    }
}

impl PartialEqSpecImpl for Color {
    open spec fn obeys_eq_spec() -> bool {
        true
    }

    open spec fn eq_spec(&self, other: &Self) -> bool {
        *self == *other
    }
}

impl PartialOrd for Color {
    fn partial_cmp(&self, other: &Self) -> (order: Option<Ordering>) {
        if self.0[0] != other.0[0] {
            if self.0[0] < other.0[0] {
                Some(Ordering::Less)
            } else {
                Some(Ordering::Greater)
            }
        } else if self.0[1] != other.0[1] {
            if self.0[1] < other.0[1] {
                Some(Ordering::Less)
            } else {
                Some(Ordering::Greater)
            }
        } else if self.0[2] != other.0[2] {
            if self.0[2] < other.0[2] {
                Some(Ordering::Less)
            } else {
                Some(Ordering::Greater)
            }
        } else if self.0[3] != other.0[3] {
            if self.0[3] < other.0[3] {
                Some(Ordering::Less)
            } else {
                Some(Ordering::Greater)
            }
        } else {
            Some(Ordering::Equal)
        }
    }
}

impl PartialOrdSpecImpl for Color {
    open spec fn obeys_partial_cmp_spec() -> bool {
        true
    }

    /// Colors compare by their first channel that differs, in the order red,
    /// green, blue, alpha.
    open spec fn partial_cmp_spec(&self, other: &Self) -> Option<Ordering> {
        if self.0[0] != other.0[0] {
            if self.0[0] < other.0[0] {
                Some(Ordering::Less)
            } else {
                Some(Ordering::Greater)
            }
        } else if self.0[1] != other.0[1] {
            if self.0[1] < other.0[1] {
                Some(Ordering::Less)
            } else {
                Some(Ordering::Greater)
            }
        } else if self.0[2] != other.0[2] {
            if self.0[2] < other.0[2] {
                Some(Ordering::Less)
            } else {
                Some(Ordering::Greater)
            }
        } else if self.0[3] != other.0[3] {
            if self.0[3] < other.0[3] {
                Some(Ordering::Less)
            } else {
                Some(Ordering::Greater)
            }
        } else {
            Some(Ordering::Equal)
        }
    }
}

impl Mul<Intensity> for Color {
    type Output = Color;

    fn mul(self, rhs: Intensity) -> (c: Color) {
        let r = scaled_channel(self.0[0], rhs);
        let g = scaled_channel(self.0[1], rhs);
        let b = scaled_channel(self.0[2], rhs);
        Color([r, g, b, self.0[3]])
    }
}

impl MulSpecImpl<Intensity> for Color {
    open spec fn obeys_mul_spec() -> bool {
        true
    }

    open spec fn mul_req(self, rhs: Intensity) -> bool {
        true
    }

    open spec fn mul_spec(self, rhs: Intensity) -> Color {
        self.shaded(rhs)
    }
}

impl Index<usize> for Color {
    type Output = u8;

    /// Channel `idx`: red is channel 0, then green, blue and alpha.
    fn index(&self, idx: usize) -> (channel: &u8)
        ensures
            *channel == self.0[idx as int],
    {
        &self.0[idx]
    }
}

impl vstd::std_specs::core::IndexSpecImpl<usize> for Color {
    open spec fn index_req(&self, index: &usize) -> bool {
        *index < 4
    }
}

/// The character of the digit `d`.
pub open spec fn digit(d: int) -> char {
    if d == 0 {
        '0'
    } else if d == 1 {
        '1'
    } else if d == 2 {
        '2'
    } else if d == 3 {
        '3'
    } else if d == 4 {
        '4'
    } else if d == 5 {
        '5'
    } else if d == 6 {
        '6'
    } else if d == 7 {
        '7'
    } else if d == 8 {
        '8'
    } else {
        '9'
    }
}

/// The number `n` in decimal digits, without leading zeros.
pub open spec fn decimal(n: nat) -> Seq<char>
    decreases n,
{
    if n < 10 {
        seq![digit(n as int)]
    } else {
        decimal(n / 10).push(digit((n % 10) as int))
    }
}

impl Color {
    /// The color in writing: the four channels in decimal, separated by a
    /// comma and a space, in round brackets.
    pub open spec fn text(self) -> Seq<char> {
        seq!['('] + decimal(self.0[0] as nat) + seq![',', ' '] + decimal(self.0[1] as nat) + seq![
            ',',
            ' ',
        ] + decimal(self.0[2] as nat) + seq![',', ' '] + decimal(self.0[3] as nat) + seq![')']
    }

    /// The color in writing, as in `(255, 0, 0, 255)`.
    pub fn to_string(&self) -> (text: String)
        ensures
            text@ == self.text(),
    {
        let mut text = String::from_str("(");
        write_decimal(&mut text, self.0[0]);
        text.append(", ");
        write_decimal(&mut text, self.0[1]);
        text.append(", ");
        write_decimal(&mut text, self.0[2]);
        text.append(", ");
        write_decimal(&mut text, self.0[3]);
        text.append(")");
        proof {
            reveal_strlit("(");
            reveal_strlit(", ");
            reveal_strlit(")");
            assert("("@ =~= seq!['(']);
            assert(", "@ =~= seq![',', ' ']);
            assert(")"@ =~= seq![')']);
        }
        text
    }
}

/// The digit `d` as a string.
fn digit_text(d: u8) -> (text: &'static str)
    requires
        d < 10,
    ensures
        text@ == seq![digit(d as int)],
{
    proof {
        reveal_strlit("0");
        reveal_strlit("1");
        reveal_strlit("2");
        reveal_strlit("3");
        reveal_strlit("4");
        reveal_strlit("5");
        reveal_strlit("6");
        reveal_strlit("7");
        reveal_strlit("8");
        reveal_strlit("9");
    }
    let text = if d == 0 {
        "0"
    } else if d == 1 {
        "1"
    } else if d == 2 {
        "2"
    } else if d == 3 {
        "3"
    } else if d == 4 {
        "4"
    } else if d == 5 {
        "5"
    } else if d == 6 {
        "6"
    } else if d == 7 {
        "7"
    } else if d == 8 {
        "8"
    } else {
        "9"
    };
    assert(text@ =~= seq![digit(d as int)]);
    text
}

/// Appends `n` in decimal digits.
fn write_decimal(text: &mut String, n: u8)
    ensures
        final(text)@ == old(text)@ + decimal(n as nat),
{
    let ghost before = text@;
    if n >= 100 {
        text.append(digit_text(n / 100));
    }
    if n >= 10 {
        text.append(digit_text((n / 10) % 10));
    }
    text.append(digit_text(n % 10));
    proof {
        reveal_with_fuel(decimal, 3);
        assert(text@ =~= before + decimal(n as nat));
    }
}

} // verus!
