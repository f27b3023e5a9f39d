//! Affine int8 quantization with exact rational arithmetic.
use vstd::prelude::*;

verus! {

/// A rational number `num / den`; well formed when `den > 0`.
#[derive(Clone, Copy, Debug, PartialEq, Eq, Structural)]
pub struct Ratio {
    pub num: i64,
    pub den: u32,
}

/// A per-tensor quantization step `num / den`; usable when both parts are positive.
#[derive(Clone, Copy, Debug, PartialEq, Eq, Structural)]
pub struct Scale {
    pub num: i32,
    pub den: u32,
}

impl Ratio {
    pub open spec fn wf(self) -> bool {
        self.den > 0
    }
}

impl Scale {
    pub open spec fn wf(self) -> bool {
        self.num > 0 && self.den > 0
    }

    /// Whether this step can be used for quantization.
    pub fn is_valid(&self) -> (r: bool)
        ensures
            r == self.wf(),
    {
        self.num > 0 && self.den > 0
    }
}

/// `a / b` rounded toward zero (`b > 0`).
pub open spec fn trunc_div(a: int, b: int) -> int {
    if a >= 0 {
        a / b
    } else {
        -((-a) / b)
    }
}

pub open spec fn clip(v: int, lo: int, hi: int) -> int {
    if v > hi {
        hi
    } else if v < lo {
        lo
    } else {
        v
    }
}

/// Numerator of `value / scale + zero_point` over the denominator `quant_den`.
pub open spec fn quant_num(value: Ratio, zero_point: int, scale: Scale) -> int {
    value.num * scale.den + zero_point * value.den * scale.num
}

pub open spec fn quant_den(value: Ratio, scale: Scale) -> int {
    value.den * scale.num
}

/// `value / scale + zero_point`, clipped to the int8 range, then truncated toward zero.
pub open spec fn quantize_spec(value: Ratio, zero_point: int, scale: Scale) -> int {
    clip(
        trunc_div(quant_num(value, zero_point, scale), quant_den(value, scale)),
        -128,
        127,
    )
}

/// `(q - zero_point) * scale`, exactly.
pub open spec fn dequantize_spec(q: int, zero_point: int, scale: Scale) -> Ratio {
    Ratio { num: ((q - zero_point) * scale.num) as i64, den: scale.den }
}

/// `|a - b| <= tol` over the rationals.
pub open spec fn within(a: Ratio, b: Ratio, tol: Scale) -> bool {
    let diff = a.num * b.den - b.num * a.den;
    let mag = if diff >= 0 { diff } else { -diff };
    mag * tol.den <= tol.num * a.den * b.den
}

/// Truncating division of a signed numerator by a positive denominator.
pub fn div_trunc(a: i128, b: i128) -> (r: i128)
    requires
        b > 0,
        a > i128::MIN,
    ensures
        r == trunc_div(a as int, b as int),
{
    if a >= 0 {
        let q: u128 = (a as u128) / (b as u128);
        q as i128
    } else {
        let q: u128 = ((-a) as u128) / (b as u128);
        -(q as i128)
    }
}

/// Maps a real value into the int8 domain of a tensor.
pub fn quantize(value: Ratio, zero_point: i32, scale: Scale) -> (r: i8)
    requires
        value.wf(),
        scale.wf(),
    ensures
        r as int == quantize_spec(value, zero_point as int, scale),
        -128 <= r <= 127,
{
    assert(-0x8000_0000_0000_0000 * 0x1_0000_0000 <= value.num * scale.den <= 0x8000_0000_0000_0000
        * 0x1_0000_0000) by (nonlinear_arith)
        requires
            -0x8000_0000_0000_0000 <= value.num < 0x8000_0000_0000_0000,
            0 <= scale.den < 0x1_0000_0000,
    ;
    assert(-0x8000_0000 * 0x1_0000_0000 <= zero_point * value.den <= 0x8000_0000 * 0x1_0000_0000)
        by (nonlinear_arith)
        requires
            -0x8000_0000 <= zero_point < 0x8000_0000,
            0 <= value.den < 0x1_0000_0000,
    ;
    assert(-0x8000_0000 * 0x1_0000_0000 * 0x8000_0000 <= zero_point * value.den * scale.num
        <= 0x8000_0000 * 0x1_0000_0000 * 0x8000_0000) by (nonlinear_arith)
        requires
            -0x8000_0000 <= zero_point < 0x8000_0000,
            0 <= value.den < 0x1_0000_0000,
            0 < scale.num < 0x8000_0000,
    ;
    assert(0 < value.den * scale.num < 0x1_0000_0000 * 0x8000_0000) by (nonlinear_arith)
        requires
            0 < value.den < 0x1_0000_0000,
            0 < scale.num < 0x8000_0000,
    ;
    let num: i128 = value.num as i128 * scale.den as i128 + zero_point as i128 * value.den as i128
        * scale.num as i128;
    let den: i128 = value.den as i128 * scale.num as i128;
    let t = div_trunc(num, den);
    if t > 127 {
        127
    } else if t < -128 {
        -128
    } else {
        t as i8
    }
}

/// Maps an int8 value of a tensor back to the reals.
pub fn dequantize(q: i8, zero_point: i32, scale: Scale) -> (r: Ratio)
    requires
        scale.wf(),
    ensures
        r == dequantize_spec(q as int, zero_point as int, scale),
        r.num == (q - zero_point) * scale.num,
        r.wf(),
{
    let d: i64 = q as i64 - zero_point as i64;
    assert(-0x8000_0000_0000_0000 < d * scale.num < 0x8000_0000_0000_0000) by (nonlinear_arith)
        requires
            -0x8000_007f <= d <= 0x8000_007f,
            0 < scale.num < 0x8000_0000,
    ;
    Ratio { num: d * scale.num as i64, den: scale.den }
}

/// Truncation toward zero stays less than one step away from the exact quotient.
proof fn lemma_trunc_div_close(a: int, b: int)
    requires
        b > 0,
    ensures
        a >= 0 ==> 0 <= a - trunc_div(a, b) * b < b,
        a < 0 ==> 0 <= trunc_div(a, b) * b - a < b,
        a >= 0 ==> trunc_div(a, b) >= 0,
        a < 0 ==> trunc_div(a, b) <= 0,
{
    if a >= 0 {
        vstd::arithmetic::div_mod::lemma_fundamental_div_mod(a, b);
        vstd::arithmetic::div_mod::lemma_div_pos_is_pos(a, b);
        vstd::arithmetic::div_mod::lemma_mod_pos_bound(a, b);
        assert(trunc_div(a, b) * b == b * (a / b)) by (nonlinear_arith)
            requires
                trunc_div(a, b) == a / b,
        ;
    } else {
        vstd::arithmetic::div_mod::lemma_fundamental_div_mod(-a, b);
        vstd::arithmetic::div_mod::lemma_div_pos_is_pos(-a, b);
        vstd::arithmetic::div_mod::lemma_mod_pos_bound(-a, b);
        assert(trunc_div(a, b) * b == -(b * ((-a) / b))) by (nonlinear_arith)
            requires
                trunc_div(a, b) == -((-a) / b),
        ;
    }
}

/// Quantizing a value and mapping it back lands within one quantization step of
/// the value, whenever `value / scale + zero_point` lies in the int8 range.
pub proof fn lemma_round_trip(value: Ratio, zero_point: i32, scale: Scale)
    requires
        value.wf(),
        scale.wf(),
        -128 * quant_den(value, scale) <= quant_num(value, zero_point as int, scale)
            <= 127 * quant_den(value, scale),
    ensures
        within(
            dequantize_spec(quantize_spec(value, zero_point as int, scale), zero_point as int, scale),
            value,
            scale,
        ),
{
    let x = quant_num(value, zero_point as int, scale);
    let d = quant_den(value, scale);
    assert(d > 0) by (nonlinear_arith)
        requires
            d == value.den * scale.num,
            value.den > 0,
            scale.num > 0,
    ;
    let t = trunc_div(x, d);
    lemma_trunc_div_close(x, d);
    assert(-128 <= t <= 127) by (nonlinear_arith)
        requires
            -128 * d <= x <= 127 * d,
            d > 0,
            x >= 0 ==> 0 <= x - t * d < d,
            x < 0 ==> 0 <= t * d - x < d,
            x >= 0 ==> t >= 0,
            x < 0 ==> t <= 0,
    ;
    assert(quantize_spec(value, zero_point as int, scale) == t);
    let m = (t - zero_point) * scale.num;
    assert(-0x8000_0000_0000_0000 < m < 0x8000_0000_0000_0000) by (nonlinear_arith)
        requires
            m == (t - zero_point) * scale.num,
            -0x8000_007f <= t - zero_point <= 0x8000_007f,
            0 < scale.num < 0x8000_0000,
    ;
    let r = dequantize_spec(t, zero_point as int, scale);
    assert(r.num == m);
    assert(r.num * value.den - value.num * r.den == t * d - x) by (nonlinear_arith)
        requires
            r.num == (t - zero_point) * scale.num,
            r.den == scale.den,
            d == value.den * scale.num,
            x == value.num * scale.den + zero_point * value.den * scale.num,
    ;
    let diff = t * d - x;
    let mag = if diff >= 0 { diff } else { -diff };
    assert(mag <= d);
    assert(mag * scale.den <= scale.num * r.den * value.den) by (nonlinear_arith)
        requires
            mag <= d,
            d == value.den * scale.num,
            r.den == scale.den,
            scale.den >= 0,
    ;
}

} // verus!
