//! Axis-aligned boxes and their intersection-over-union.
use crate::quant::Ratio;
use vstd::prelude::*;

verus! {

/// A box in pixel coordinates: top-left corner and size.
#[derive(Clone, Copy, Debug, PartialEq, Eq, Structural)]
pub struct Rect {
    pub x: u32,
    pub y: u32,
    pub width: u32,
    pub height: u32,
}

/// Intersection over union as the exact fraction `intersection_area / union_area`;
/// its value is `0` when the union is empty.
#[derive(Clone, Copy, Debug, PartialEq, Eq, Structural)]
pub struct Iou {
    pub intersection_area: u64,
    pub union_area: u128,
}

/// Length of the overlap of `[a, a + la)` and `[b, b + lb)`, never negative.
pub open spec fn overlap_len(a: int, la: int, b: int, lb: int) -> int {
    let lo = if a > b { a } else { b };
    let hi = if a + la < b + lb { a + la } else { b + lb };
    if hi > lo { hi - lo } else { 0 }
}

pub open spec fn area(r: Rect) -> int {
    r.width * r.height
}

pub open spec fn intersection_spec(a: Rect, b: Rect) -> int {
    overlap_len(a.x as int, a.width as int, b.x as int, b.width as int) * overlap_len(
        a.y as int,
        a.height as int,
        b.y as int,
        b.height as int,
    )
}

pub open spec fn iou_spec(a: Rect, b: Rect) -> Iou {
    Iou {
        intersection_area: intersection_spec(a, b) as u64,
        union_area: (area(a) + area(b) - intersection_spec(a, b)) as u128,
    }
}

/// `o > t` over the rationals, reading an empty union as an IoU of `0`.
pub open spec fn iou_exceeds(o: Iou, t: Ratio) -> bool {
    if o.union_area == 0 {
        0 > t.num
    } else {
        o.intersection_area * t.den > t.num * o.union_area
    }
}

/// Whether two boxes share no area because they are apart along an axis.
pub open spec fn disjoint(a: Rect, b: Rect) -> bool {
    a.x + a.width <= b.x || b.x + b.width <= a.x || a.y + a.height <= b.y || b.y + b.height
        <= a.y
}

proof fn lemma_overlap_bounds(a: int, la: int, b: int, lb: int)
    requires
        la >= 0,
        lb >= 0,
    ensures
        0 <= overlap_len(a, la, b, lb) <= la,
        overlap_len(a, la, b, lb) <= lb,
        overlap_len(a, la, b, lb) == overlap_len(b, lb, a, la),
{
}

proof fn lemma_intersection_bounds(a: Rect, b: Rect)
    ensures
        0 <= intersection_spec(a, b) <= area(a),
        intersection_spec(a, b) <= area(b),
        intersection_spec(a, b) < 0x1_0000_0000_0000_0000,
        intersection_spec(a, b) == intersection_spec(b, a),
{
    let ow = overlap_len(a.x as int, a.width as int, b.x as int, b.width as int);
    let oh = overlap_len(a.y as int, a.height as int, b.y as int, b.height as int);
    lemma_overlap_bounds(a.x as int, a.width as int, b.x as int, b.width as int);
    lemma_overlap_bounds(a.y as int, a.height as int, b.y as int, b.height as int);
    assert(0 <= ow * oh <= a.width * a.height && ow * oh <= b.width * b.height && ow * oh
        < 0x1_0000_0000_0000_0000) by (nonlinear_arith)
        requires
            0 <= ow <= a.width,
            ow <= b.width,
            0 <= oh <= a.height,
            oh <= b.height,
            a.width < 0x1_0000_0000,
            a.height < 0x1_0000_0000,
    ;
}

proof fn lemma_iou_parts(a: Rect, b: Rect)
    ensures
        iou_spec(a, b).intersection_area == intersection_spec(a, b),
        iou_spec(a, b).union_area == area(a) + area(b) - intersection_spec(a, b),
        iou_spec(a, b).intersection_area <= iou_spec(a, b).union_area,
{
    lemma_intersection_bounds(a, b);
    assert(area(a) < 0x1_0000_0000_0000_0000 && area(b) < 0x1_0000_0000_0000_0000)
        by (nonlinear_arith)
        requires
            a.width < 0x1_0000_0000,
            a.height < 0x1_0000_0000,
            b.width < 0x1_0000_0000,
            b.height < 0x1_0000_0000,
            area(a) == a.width * a.height,
            area(b) == b.width * b.height,
    ;
}

proof fn lemma_area_bound(r: Rect)
    ensures
        0 <= area(r) < 0x1_0000_0000_0000_0000,
{
    assert(0 <= r.width * r.height < 0x1_0000_0000_0000_0000) by (nonlinear_arith)
        requires
            0 <= r.width < 0x1_0000_0000,
            0 <= r.height < 0x1_0000_0000,
    ;
}

fn overlap(a: u32, la: u32, b: u32, lb: u32) -> (r: u64)
    ensures
        r == overlap_len(a as int, la as int, b as int, lb as int),
{
    let lo: u64 = if a > b { a as u64 } else { b as u64 };
    let a_end: u64 = a as u64 + la as u64;
    let b_end: u64 = b as u64 + lb as u64;
    let hi: u64 = if a_end < b_end { a_end } else { b_end };
    if hi > lo { hi - lo } else { 0 }
}

/// Intersection over union of two boxes.
pub fn iou(a: Rect, b: Rect) -> (r: Iou)
    ensures
        r == iou_spec(a, b),
        r.intersection_area == intersection_spec(a, b),
        r.union_area == area(a) + area(b) - intersection_spec(a, b),
        r.intersection_area <= r.union_area,
{
    proof {
        lemma_iou_parts(a, b);
        lemma_overlap_bounds(a.x as int, a.width as int, b.x as int, b.width as int);
        lemma_overlap_bounds(a.y as int, a.height as int, b.y as int, b.height as int);
    }
    let ow = overlap(a.x, a.width, b.x, b.width);
    let oh = overlap(a.y, a.height, b.y, b.height);
    assert(ow * oh == intersection_spec(a, b));
    let inter: u64 = ow * oh;
    proof {
        lemma_area_bound(a);
        lemma_area_bound(b);
    }
    let area_a: u128 = a.width as u128 * a.height as u128;
    let area_b: u128 = b.width as u128 * b.height as u128;
    let union_area: u128 = area_a + area_b - inter as u128;
    Iou { intersection_area: inter, union_area }
}

/// Whether the IoU of two boxes is strictly above the threshold `t`.
pub fn overlaps_beyond(a: Rect, b: Rect, t: Ratio) -> (r: bool)
    requires
        t.wf(),
    ensures
        r == iou_exceeds(iou_spec(a, b), t),
{
    let o = iou(a, b);
    if o.union_area == 0 {
        t.num < 0
    } else if t.num < 0 {
        assert(o.intersection_area * t.den >= 0 > t.num * o.union_area) by (nonlinear_arith)
            requires
                t.num < 0,
                o.union_area > 0,
        ;
        true
    } else if t.num as u64 >= t.den as u64 {
        assert(o.intersection_area * t.den <= t.num * o.union_area) by (nonlinear_arith)
            requires
                0 <= o.intersection_area <= o.union_area,
                t.num >= t.den >= 0,
        ;
        false
    } else {
        assert(o.intersection_area * t.den < 0x1_0000_0000_0000_0000 * 0x1_0000_0000
            && t.num * o.union_area <= 0x1_0000_0000 * o.union_area) by (nonlinear_arith)
            requires
                0 <= o.intersection_area < 0x1_0000_0000_0000_0000,
                0 <= t.den < 0x1_0000_0000,
                0 <= t.num < t.den,
        ;
        proof {
            lemma_area_bound(a);
            lemma_area_bound(b);
            lemma_iou_parts(a, b);
        }
        assert(t.num * o.union_area < 0x1_0000_0000 * 0x2_0000_0000_0000_0000) by (nonlinear_arith)
            requires
                0 <= t.num < 0x1_0000_0000,
                0 <= o.union_area < 0x2_0000_0000_0000_0000,
        ;
        (o.intersection_area as u128) * (t.den as u128) > (t.num as u128) * o.union_area
    }
}

/// IoU does not depend on the order of its arguments.
pub proof fn lemma_iou_symmetric(a: Rect, b: Rect)
    ensures
        iou_spec(a, b) == iou_spec(b, a),
{
    lemma_intersection_bounds(a, b);
}

/// A box with positive width and height has an IoU of exactly one with itself.
pub proof fn lemma_iou_self(a: Rect)
    requires
        a.width > 0,
        a.height > 0,
    ensures
        iou_spec(a, a).union_area > 0,
        iou_spec(a, a).intersection_area == iou_spec(a, a).union_area,
{
    lemma_iou_parts(a, a);
    assert(overlap_len(a.x as int, a.width as int, a.x as int, a.width as int) == a.width);
    assert(overlap_len(a.y as int, a.height as int, a.y as int, a.height as int) == a.height);
    assert(area(a) > 0) by (nonlinear_arith)
        requires
            a.width > 0,
            a.height > 0,
            area(a) == a.width * a.height,
    ;
}

/// Two boxes that are apart along an axis have an IoU of exactly zero.
pub proof fn lemma_iou_disjoint(a: Rect, b: Rect)
    requires
        disjoint(a, b),
    ensures
        iou_spec(a, b).intersection_area == 0,
{
    lemma_iou_parts(a, b);
}

} // verus!
