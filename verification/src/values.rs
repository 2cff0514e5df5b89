//! The values that declarations carry.
//!
//! Numbers are kept as the bit patterns of the `f32` values that the tokenizer
//! read (`f32::to_bits`), so that they pass through the library unchanged.

use vstd::prelude::*;
use vstd::std_specs::cmp::PartialEqSpecImpl;

verus! {

/// A length: pixels, a fraction of the available space, or `auto`.
#[derive(Debug, Clone, Copy)]
pub enum Length {
    /// Pixels, as the bit pattern of an `f32`.
    Px(u32),
    /// A percentage divided by 100 (`50%` is `0.5`), as the bit pattern of an `f32`.
    Percent(u32),
    Auto,
}

/// One side of a margin: pixels or `auto`.
#[derive(Debug, Clone, Copy)]
pub enum MarginValue {
    /// Pixels, as the bit pattern of an `f32`.
    Px(u32),
    Auto,
}

/// The four sides of a margin.
#[derive(Debug, Clone, Copy)]
pub struct Margins {
    pub top: MarginValue,
    pub right: MarginValue,
    pub bottom: MarginValue,
    pub left: MarginValue,
}

/// The four sides of a padding. Padding never accepts `auto`, so its sides
/// are plain pixel values, each the bit pattern of an `f32`.
#[derive(Debug, Clone, Copy)]
pub struct Paddings {
    pub top: u32,
    pub right: u32,
    pub bottom: u32,
    pub left: u32,
}

/// The bit pattern of the `f32` zero.
pub const ZERO_BITS: u32 = 0u32;

/// Whether an `f32` bit pattern stands for zero (`0.0` or `-0.0`), that is,
/// whether the float compares equal to `0.0`.
pub open spec fn is_zero_bits(bits: u32) -> bool {
    bits & 0x7fff_ffffu32 == 0
}

/// Whether an `f32` bit pattern stands for a NaN.
pub open spec fn is_nan_bits(bits: u32) -> bool {
    bits & 0x7fff_ffffu32 > 0x7f80_0000u32
}

/// `==` on the `f32` values of two bit patterns: the two zeros are equal, a
/// NaN equals nothing, and other values are equal when their bits are.
pub open spec fn float_bits_eq(a: u32, b: u32) -> bool {
    (is_zero_bits(a) && is_zero_bits(b)) || (!is_nan_bits(a) && a == b)
}

/// Compares the `f32` values of two bit patterns as `f32` `==` does.
pub fn bits_eq(a: u32, b: u32) -> (r: bool)
    ensures
        r == float_bits_eq(a, b),
{
    (a & 0x7fff_ffffu32 == 0 && b & 0x7fff_ffffu32 == 0) || (a & 0x7fff_ffffu32 <= 0x7f80_0000u32 && a == b)
}

/// `==` on lengths: the same kind, with equal `f32` values.
pub open spec fn length_eq(a: Length, b: Length) -> bool {
    match (a, b) {
        (Length::Px(x), Length::Px(y)) => float_bits_eq(x, y),
        (Length::Percent(x), Length::Percent(y)) => float_bits_eq(x, y),
        (Length::Auto, Length::Auto) => true,
        _ => false,
    }
}

/// `==` on margin sides: the same kind, with equal `f32` values.
pub open spec fn margin_value_eq(a: MarginValue, b: MarginValue) -> bool {
    match (a, b) {
        (MarginValue::Px(x), MarginValue::Px(y)) => float_bits_eq(x, y),
        (MarginValue::Auto, MarginValue::Auto) => true,
        _ => false,
    }
}

/// `==` on margins: side by side.
pub open spec fn margins_eq(a: Margins, b: Margins) -> bool {
    margin_value_eq(a.top, b.top) && margin_value_eq(a.right, b.right)
        && margin_value_eq(a.bottom, b.bottom) && margin_value_eq(a.left, b.left)
}

/// `==` on paddings: side by side, as `f32` values.
pub open spec fn paddings_eq(a: Paddings, b: Paddings) -> bool {
    float_bits_eq(a.top, b.top) && float_bits_eq(a.right, b.right)
        && float_bits_eq(a.bottom, b.bottom) && float_bits_eq(a.left, b.left)
}

impl PartialEq for Length {
    fn eq(&self, other: &Self) -> (r: bool) {
        match (self, other) {
            (Length::Px(x), Length::Px(y)) => bits_eq(*x, *y),
            (Length::Percent(x), Length::Percent(y)) => bits_eq(*x, *y),
            (Length::Auto, Length::Auto) => true,
            _ => false,
        }
    }
}

impl PartialEqSpecImpl for Length {
    open spec fn obeys_eq_spec() -> bool {
        true
    }

    open spec fn eq_spec(&self, other: &Self) -> bool {
        length_eq(*self, *other)
    }
}

impl PartialEq for MarginValue {
    fn eq(&self, other: &Self) -> (r: bool) {
        match (self, other) {
            (MarginValue::Px(x), MarginValue::Px(y)) => bits_eq(*x, *y),
            (MarginValue::Auto, MarginValue::Auto) => true,
            _ => false,
        }
    }
}

impl PartialEqSpecImpl for MarginValue {
    open spec fn obeys_eq_spec() -> bool {
        true
    }

    open spec fn eq_spec(&self, other: &Self) -> bool {
        margin_value_eq(*self, *other)
    }
}

impl PartialEq for Margins {
    fn eq(&self, other: &Self) -> (r: bool) {
        self.top.eq(&other.top) && self.right.eq(&other.right) && self.bottom.eq(&other.bottom)
            && self.left.eq(&other.left)
    }
}

impl PartialEqSpecImpl for Margins {
    open spec fn obeys_eq_spec() -> bool {
        true
    }

    open spec fn eq_spec(&self, other: &Self) -> bool {
        margins_eq(*self, *other)
    }
}

impl PartialEq for Paddings {
    fn eq(&self, other: &Self) -> (r: bool) {
        bits_eq(self.top, other.top) && bits_eq(self.right, other.right) && bits_eq(self.bottom, other.bottom)
            && bits_eq(self.left, other.left)
    }
}

impl PartialEqSpecImpl for Paddings {
    open spec fn obeys_eq_spec() -> bool {
        true
    }

    open spec fn eq_spec(&self, other: &Self) -> bool {
        paddings_eq(*self, *other)
    }
}

pub fn bits_are_zero(bits: u32) -> (r: bool)
    ensures
        r == is_zero_bits(bits),
{
    bits & 0x7fff_ffffu32 == 0
}

/// The margin whose sides are all zero pixels.
pub open spec fn zero_margins() -> Margins {
    Margins {
        top: MarginValue::Px(ZERO_BITS),
        right: MarginValue::Px(ZERO_BITS),
        bottom: MarginValue::Px(ZERO_BITS),
        left: MarginValue::Px(ZERO_BITS),
    }
}

/// The padding whose sides are all zero pixels.
pub open spec fn zero_paddings() -> Paddings {
    Paddings { top: ZERO_BITS, right: ZERO_BITS, bottom: ZERO_BITS, left: ZERO_BITS }
}

impl Default for Margins {
    fn default() -> (r: Margins)
        ensures
            r == zero_margins(),
    {
        Margins {
            top: MarginValue::Px(ZERO_BITS),
            right: MarginValue::Px(ZERO_BITS),
            bottom: MarginValue::Px(ZERO_BITS),
            left: MarginValue::Px(ZERO_BITS),
        }
    }
}

impl Default for Paddings {
    fn default() -> (r: Paddings)
        ensures
            r == zero_paddings(),
    {
        Paddings { top: ZERO_BITS, right: ZERO_BITS, bottom: ZERO_BITS, left: ZERO_BITS }
    }
}

/// The four sides (top, right, bottom, left) that one to four shorthand values
/// stand for: one value is every side; two are vertical and horizontal; three
/// are top, horizontal and bottom; four are top, right, bottom and left.
pub open spec fn four_sides<T>(values: Seq<T>) -> (T, T, T, T)
    recommends
        1 <= values.len() <= 4,
{
    if values.len() == 1 {
        (values[0], values[0], values[0], values[0])
    } else if values.len() == 2 {
        (values[0], values[1], values[0], values[1])
    } else if values.len() == 3 {
        (values[0], values[1], values[2], values[1])
    } else {
        (values[0], values[1], values[2], values[3])
    }
}

/// The margins that one to four shorthand values stand for.
pub open spec fn margins_of(values: Seq<MarginValue>) -> Margins {
    let (top, right, bottom, left) = four_sides(values);
    Margins { top, right, bottom, left }
}

/// The paddings that one to four shorthand values stand for.
pub open spec fn paddings_of(values: Seq<u32>) -> Paddings {
    let (top, right, bottom, left) = four_sides(values);
    Paddings { top, right, bottom, left }
}

/// Expands the values of a `margin` shorthand to its four sides.
pub fn expand_margins(values: &Vec<MarginValue>) -> (m: Margins)
    requires
        1 <= values.len() <= 4,
    ensures
        m == margins_of(values@),
{
    if values.len() == 1 {
        Margins { top: values[0], right: values[0], bottom: values[0], left: values[0] }
    } else if values.len() == 2 {
        Margins { top: values[0], right: values[1], bottom: values[0], left: values[1] }
    } else if values.len() == 3 {
        Margins { top: values[0], right: values[1], bottom: values[2], left: values[1] }
    } else {
        Margins { top: values[0], right: values[1], bottom: values[2], left: values[3] }
    }
}

/// Expands the values of a `padding` shorthand to its four sides.
pub fn expand_paddings(values: &Vec<u32>) -> (p: Paddings)
    requires
        1 <= values.len() <= 4,
    ensures
        p == paddings_of(values@),
{
    if values.len() == 1 {
        Paddings { top: values[0], right: values[0], bottom: values[0], left: values[0] }
    } else if values.len() == 2 {
        Paddings { top: values[0], right: values[1], bottom: values[0], left: values[1] }
    } else if values.len() == 3 {
        Paddings { top: values[0], right: values[1], bottom: values[2], left: values[1] }
    } else {
        Paddings { top: values[0], right: values[1], bottom: values[2], left: values[3] }
    }
}

} // verus!
