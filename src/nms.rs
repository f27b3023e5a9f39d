//! Ordering detections by confidence and class-aware non-maximum suppression.
use crate::geometry::{iou_exceeds, iou_spec, lemma_iou_symmetric, overlaps_beyond, Rect};
use crate::quant::Ratio;
use vstd::multiset::Multiset;
use vstd::prelude::*;

verus! {

/// One detected object: its class, its dequantized confidence and its box.
#[derive(Clone, Copy, Debug, PartialEq, Eq, Structural)]
pub struct Detection {
    pub class_id: u32,
    pub confidence: Ratio,
    pub rect: Rect,
}

impl Detection {
    pub open spec fn wf(self) -> bool {
        self.confidence.wf()
    }
}

pub open spec fn all_wf(s: Seq<Detection>) -> bool {
    forall|i: int| 0 <= i < s.len() ==> (#[trigger] s[i]).wf()
}

/// `a < b` over the rationals (both denominators positive).
pub open spec fn ratio_lt(a: Ratio, b: Ratio) -> bool {
    a.num * b.den < b.num * a.den
}

/// Inserts `d` into a confidence-descending sequence after every element whose
/// confidence is at least that of `d`.
pub open spec fn insert_desc(s: Seq<Detection>, d: Detection) -> Seq<Detection>
    decreases s.len(),
{
    if s.len() == 0 {
        seq![d]
    } else if ratio_lt(s[0].confidence, d.confidence) {
        seq![d] + s
    } else {
        seq![s[0]] + insert_desc(s.drop_first(), d)
    }
}

/// Stable sort by confidence, highest first: detections of equal confidence keep
/// their order.
pub open spec fn sort_desc(s: Seq<Detection>) -> Seq<Detection>
    decreases s.len(),
{
    if s.len() == 0 {
        s
    } else {
        insert_desc(sort_desc(s.drop_last()), s.last())
    }
}

/// Whether a kept detection of the same class overlaps `d` beyond the threshold.
pub open spec fn suppressed(kept: Seq<Detection>, d: Detection, t: Ratio) -> bool {
    exists|k: int|
        0 <= k < kept.len() && (#[trigger] kept[k]).class_id == d.class_id && iou_exceeds(
            iou_spec(kept[k].rect, d.rect),
            t,
        )
}

/// Greedy suppression in sequence order: a detection is kept unless an earlier
/// kept detection of its class overlaps it by more than `t`.
pub open spec fn suppress_spec(s: Seq<Detection>, t: Ratio) -> Seq<Detection>
    decreases s.len(),
{
    if s.len() == 0 {
        s
    } else {
        let prev = suppress_spec(s.drop_last(), t);
        if suppressed(prev, s.last(), t) {
            prev
        } else {
            prev.push(s.last())
        }
    }
}

pub open spec fn nms_spec(s: Seq<Detection>, t: Ratio) -> Seq<Detection> {
    suppress_spec(sort_desc(s), t)
}

/// Whether confidence `a` is strictly below confidence `b`.
pub fn confidence_lt(a: Ratio, b: Ratio) -> (r: bool)
    ensures
        r == ratio_lt(a, b),
{
    assert(-0x8000_0000_0000_0000 * 0x1_0000_0000 <= a.num * b.den <= 0x8000_0000_0000_0000
        * 0x1_0000_0000) by (nonlinear_arith)
        requires
            -0x8000_0000_0000_0000 <= a.num < 0x8000_0000_0000_0000,
            0 <= b.den < 0x1_0000_0000,
    ;
    assert(-0x8000_0000_0000_0000 * 0x1_0000_0000 <= b.num * a.den <= 0x8000_0000_0000_0000
        * 0x1_0000_0000) by (nonlinear_arith)
        requires
            -0x8000_0000_0000_0000 <= b.num < 0x8000_0000_0000_0000,
            0 <= a.den < 0x1_0000_0000,
    ;
    (a.num as i128) * (b.den as i128) < (b.num as i128) * (a.den as i128)
}

proof fn lemma_insert_at(s: Seq<Detection>, d: Detection, p: int)
    requires
        0 <= p <= s.len(),
        forall|k: int| 0 <= k < p ==> !ratio_lt(#[trigger] s[k].confidence, d.confidence),
        p < s.len() ==> ratio_lt(s[p].confidence, d.confidence),
    ensures
        insert_desc(s, d) == s.insert(p, d),
    decreases p,
{
    if s.len() == 0 {
        assert(s.insert(p, d) =~= seq![d]);
    } else if p == 0 {
        assert(s.insert(p, d) =~= seq![d] + s);
    } else {
        let rest = s.drop_first();
        assert forall|k: int| 0 <= k < p - 1 implies !ratio_lt(
            #[trigger] rest[k].confidence,
            d.confidence,
        ) by {
            assert(rest[k] == s[k + 1]);
        }
        lemma_insert_at(rest, d, p - 1);
        assert(s.insert(p, d) =~= seq![s[0]] + rest.insert(p - 1, d));
    }
}

/// Sorts detections by confidence, highest first, keeping the order of ties.
pub fn sort_by_confidence(dets: &Vec<Detection>) -> (r: Vec<Detection>)
    ensures
        r@ == sort_desc(dets@),
{
    let mut out: Vec<Detection> = Vec::new();
    let n = dets.len();
    for i in 0..n
        invariant
            n == dets@.len(),
            out@ == sort_desc(dets@.take(i as int)),
    {
        let d = dets[i];
        let mut p: usize = 0;
        while p < out.len() && !confidence_lt(out[p].confidence, d.confidence)
            invariant
                0 <= p <= out@.len(),
                forall|k: int| 0 <= k < p ==> !ratio_lt(#[trigger] out@[k].confidence, d.confidence),
            decreases out@.len() - p,
        {
            p = p + 1;
        }
        proof {
            lemma_insert_at(out@, d, p as int);
            assert(dets@.take(i + 1).drop_last() =~= dets@.take(i as int));
        }
        out.insert(p, d);
    }
    assert(dets@.take(n as int) =~= dets@);
    out
}

/// Keeps, in order, every detection that no earlier kept detection of the same
/// class overlaps by more than `iou_threshold`.
pub fn suppress(dets: &Vec<Detection>, iou_threshold: Ratio) -> (r: Vec<Detection>)
    requires
        iou_threshold.wf(),
    ensures
        r@ == suppress_spec(dets@, iou_threshold),
{
    let mut kept: Vec<Detection> = Vec::new();
    let n = dets.len();
    for i in 0..n
        invariant
            n == dets@.len(),
            iou_threshold.wf(),
            kept@ == suppress_spec(dets@.take(i as int), iou_threshold),
    {
        let d = dets[i];
        let mut hit = false;
        let mut k: usize = 0;
        while k < kept.len()
            invariant
                0 <= k <= kept@.len(),
                iou_threshold.wf(),
                hit == exists|m: int|
                    0 <= m < k && (#[trigger] kept@[m]).class_id == d.class_id && iou_exceeds(
                        iou_spec(kept@[m].rect, d.rect),
                        iou_threshold,
                    ),
            decreases kept@.len() - k,
        {
            if kept[k].class_id == d.class_id && overlaps_beyond(kept[k].rect, d.rect, iou_threshold) {
                hit = true;
            }
            k = k + 1;
        }
        proof {
            assert(dets@.take(i + 1).drop_last() =~= dets@.take(i as int));
        }
        if !hit {
            kept.push(d);
        }
    }
    assert(dets@.take(n as int) =~= dets@);
    kept
}

/// Non-maximum suppression: sorts by confidence, highest first, then suppresses
/// same-class detections that overlap a kept one by more than `iou_threshold`.
pub fn nms(dets: &Vec<Detection>, iou_threshold: Ratio) -> (r: Vec<Detection>)
    requires
        iou_threshold.wf(),
    ensures
        r@ == nms_spec(dets@, iou_threshold),
{
    let sorted = sort_by_confidence(dets);
    suppress(&sorted, iou_threshold)
}

/// Non-maximum suppression leaves a single detection as it is.
pub proof fn lemma_nms_single(d: Detection, t: Ratio)
    ensures
        nms_spec(seq![d], t) == seq![d],
{
    lemma_singleton(d, t);
}

proof fn lemma_singleton(d: Detection, t: Ratio)
    ensures
        sort_desc(seq![d]) == seq![d],
        suppress_spec(seq![d], t) == seq![d],
{
    let s = seq![d];
    let e = s.drop_last();
    assert(e.len() == 0);
    assert(sort_desc(e) == e);
    assert(suppress_spec(e, t) == e);
    assert(sort_desc(s) == insert_desc(e, d));
    assert(sort_desc(s) =~= s);
    assert(!suppressed(e, d, t));
    assert(suppress_spec(s, t) == e.push(d));
    assert(e.push(d) =~= s);
}

/// Sorting two detections puts the more confident first; on a tie, the first stays first.
pub proof fn lemma_sort_pair(a: Detection, b: Detection)
    ensures
        sort_desc(seq![a, b]) == (if ratio_lt(a.confidence, b.confidence) {
            seq![b, a]
        } else {
            seq![a, b]
        }),
{
    let s = seq![a, b];
    assert(s.drop_last() =~= seq![a]);
    lemma_singleton(a, Ratio { num: 0, den: 1 });
    let one = seq![a];
    assert(one.drop_first() =~= Seq::<Detection>::empty());
    if ratio_lt(a.confidence, b.confidence) {
        assert(insert_desc(one, b) =~= seq![b, a]);
    } else {
        assert(insert_desc(one.drop_first(), b) =~= seq![b]);
        assert(insert_desc(one, b) =~= seq![a, b]);
    }
}

/// Greedy suppression of two detections: the second goes exactly when it has the
/// class of the first and overlaps it by more than `t`.
proof fn lemma_suppress_pair(a: Detection, b: Detection, t: Ratio)
    ensures
        suppress_spec(seq![a, b], t) == (if a.class_id == b.class_id && iou_exceeds(
            iou_spec(a.rect, b.rect),
            t,
        ) {
            seq![a]
        } else {
            seq![a, b]
        }),
{
    let s = seq![a, b];
    assert(s.drop_last() =~= seq![a]);
    lemma_singleton(a, t);
    let first = suppress_spec(seq![a], t);
    if a.class_id == b.class_id && iou_exceeds(iou_spec(a.rect, b.rect), t) {
        assert(first[0] == a);
        assert(suppressed(first, b, t));
    } else {
        assert(!suppressed(first, b, t));
        assert(first.push(b) =~= s);
    }
}

/// Of two same-class detections, only the more confident one survives when their
/// IoU is above the threshold; below it, both survive, the more confident first.
pub proof fn lemma_nms_pair_same_class(a: Detection, b: Detection, t: Ratio)
    requires
        a.class_id == b.class_id,
    ensures
        ({
            let hi = if ratio_lt(a.confidence, b.confidence) { b } else { a };
            let lo = if ratio_lt(a.confidence, b.confidence) { a } else { b };
            nms_spec(seq![a, b], t) == if iou_exceeds(iou_spec(a.rect, b.rect), t) {
                seq![hi]
            } else {
                seq![hi, lo]
            }
        }),
{
    lemma_sort_pair(a, b);
    lemma_iou_symmetric(a.rect, b.rect);
    if ratio_lt(a.confidence, b.confidence) {
        lemma_suppress_pair(b, a, t);
    } else {
        lemma_suppress_pair(a, b, t);
    }
}

/// Detections of different classes never suppress each other, whatever their overlap.
pub proof fn lemma_nms_pair_other_class(a: Detection, b: Detection, t: Ratio)
    requires
        a.class_id != b.class_id,
    ensures
        nms_spec(seq![a, b], t) == sort_desc(seq![a, b]),
{
    lemma_sort_pair(a, b);
    if ratio_lt(a.confidence, b.confidence) {
        lemma_suppress_pair(b, a, t);
    } else {
        lemma_suppress_pair(a, b, t);
    }
}

pub open spec fn of_class(c: u32) -> spec_fn(Detection) -> bool {
    |d: Detection| d.class_id == c
}

/// Suppression acts on each class separately: the survivors of class `c` are the
/// survivors of suppressing the detections of class `c` alone, so no detection
/// is ever suppressed by one of another class.
pub proof fn lemma_suppress_per_class(s: Seq<Detection>, t: Ratio, c: u32)
    ensures
        suppress_spec(s, t).filter(of_class(c)) == suppress_spec(s.filter(of_class(c)), t),
    decreases s.len(),
{
    reveal(Seq::filter);
    let p = of_class(c);
    if s.len() == 0 {
        assert(s.filter(p) =~= s);
    } else {
        let rest = s.drop_last();
        let x = s.last();
        lemma_suppress_per_class(rest, t, c);
        let prev = suppress_spec(rest, t);
        let prevf = prev.filter(p);
        assert(s.filter(p) == (if p(x) { rest.filter(p).push(x) } else { rest.filter(p) }));
        if p(x) {
            let sf = s.filter(p);
            assert(sf.drop_last() =~= rest.filter(p));
            assert(sf.last() == x);
            assert(suppressed(prev, x, t) == suppressed(prevf, x, t)) by {
                if suppressed(prev, x, t) {
                    let k = choose|k: int|
                        0 <= k < prev.len() && (#[trigger] prev[k]).class_id == x.class_id
                            && iou_exceeds(iou_spec(prev[k].rect, x.rect), t);
                    prev.lemma_filter_contains(p, k);
                    let m = prevf.index_of(prev[k]);
                    assert(prevf[m] == prev[k]);
                }
                if suppressed(prevf, x, t) {
                    let m = choose|m: int|
                        0 <= m < prevf.len() && (#[trigger] prevf[m]).class_id == x.class_id
                            && iou_exceeds(iou_spec(prevf[m].rect, x.rect), t);
                    assert(prevf.contains(prevf[m]));
                    prev.lemma_filter_contains_rev(p, prevf[m]);
                    let k = prev.index_of(prevf[m]);
                    assert(prev[k] == prevf[m]);
                }
            }
            if !suppressed(prev, x, t) {
                let pushed = prev.push(x);
                assert(pushed.drop_last() =~= prev);
                assert(pushed.filter(p) == prevf.push(x));
            }
        } else {
            if !suppressed(prev, x, t) {
                let pushed = prev.push(x);
                assert(pushed.drop_last() =~= prev);
                assert(pushed.filter(p) == prevf);
            }
        }
    }
}

/// The survivors of class `c` depend only on the detections of class `c`, taken
/// in confidence order: other classes never suppress them.
pub proof fn lemma_nms_per_class(s: Seq<Detection>, t: Ratio, c: u32)
    ensures
        nms_spec(s, t).filter(of_class(c)) == suppress_spec(sort_desc(s).filter(of_class(c)), t),
{
    lemma_suppress_per_class(sort_desc(s), t, c);
}

/// No two survivors of one class overlap by more than `t`: of any two kept
/// detections of a class, the later one is not above the threshold against the
/// earlier one.
pub proof fn lemma_suppress_no_overlap(s: Seq<Detection>, t: Ratio)
    ensures
        forall|i: int, j: int|
            0 <= i < j < suppress_spec(s, t).len() && #[trigger] suppress_spec(s, t)[i].class_id
                == #[trigger] suppress_spec(s, t)[j].class_id ==> !iou_exceeds(
                iou_spec(suppress_spec(s, t)[i].rect, suppress_spec(s, t)[j].rect),
                t,
            ),
    decreases s.len(),
{
    if s.len() > 0 {
        lemma_suppress_no_overlap(s.drop_last(), t);
        let prev = suppress_spec(s.drop_last(), t);
        let x = s.last();
        if !suppressed(prev, x, t) {
            let r = prev.push(x);
            assert forall|i: int, j: int|
                0 <= i < j < r.len() && #[trigger] r[i].class_id == #[trigger] r[j].class_id
                    implies !iou_exceeds(iou_spec(r[i].rect, r[j].rect), t) by {
                if j == r.len() - 1 {
                    assert(r[i] == prev[i]);
                } else {
                    assert(r[i] == prev[i] && r[j] == prev[j]);
                }
            }
        }
    }
}

/// Confidences in non-increasing order.
pub open spec fn sorted_desc(s: Seq<Detection>) -> bool {
    forall|i: int, j: int| 0 <= i < j < s.len() ==> !ratio_lt(#[trigger] s[i].confidence, #[trigger] s[j].confidence)
}

proof fn lemma_ge_trans(a: Ratio, b: Ratio, c: Ratio)
    requires
        a.wf(),
        b.wf(),
        c.wf(),
        !ratio_lt(a, b),
        !ratio_lt(b, c),
    ensures
        !ratio_lt(a, c),
{
    assert(a.num * c.den >= c.num * a.den) by (nonlinear_arith)
        requires
            a.num * b.den >= b.num * a.den,
            b.num * c.den >= c.num * b.den,
            a.den > 0,
            b.den > 0,
            c.den > 0,
    ;
}

proof fn lemma_lt_asym(a: Ratio, b: Ratio)
    requires
        ratio_lt(a, b),
    ensures
        !ratio_lt(b, a),
{
}

proof fn lemma_insert_multiset(s: Seq<Detection>, d: Detection)
    ensures
        insert_desc(s, d).to_multiset() == s.to_multiset().insert(d),
        insert_desc(s, d).len() == s.len() + 1,
    decreases s.len(),
{
    broadcast use vstd::seq_lib::group_to_multiset_ensures;
    if s.len() == 0 {
        assert(seq![d] =~= Seq::<Detection>::empty().push(d));
        assert(s.to_multiset() =~= Multiset::empty());
    } else if ratio_lt(s[0].confidence, d.confidence) {
        vstd::seq_lib::lemma_multiset_commutative(seq![d], s);
        assert(seq![d] =~= Seq::<Detection>::empty().push(d));
        assert(seq![d].to_multiset() =~= Multiset::empty().insert(d));
        assert(insert_desc(s, d).to_multiset() =~= s.to_multiset().insert(d));
    } else {
        let rest = s.drop_first();
        lemma_insert_multiset(rest, d);
        assert(s =~= seq![s[0]] + rest);
        vstd::seq_lib::lemma_multiset_commutative(seq![s[0]], rest);
        vstd::seq_lib::lemma_multiset_commutative(seq![s[0]], insert_desc(rest, d));
        assert(seq![s[0]] =~= Seq::<Detection>::empty().push(s[0]));
        assert(seq![s[0]].to_multiset() =~= Multiset::empty().insert(s[0]));
        assert(insert_desc(s, d).to_multiset() =~= s.to_multiset().insert(d));
    }
}

/// Sorting by confidence only reorders: each detection occurs as often as before.
pub proof fn lemma_sort_permutes(s: Seq<Detection>)
    ensures
        sort_desc(s).to_multiset() == s.to_multiset(),
        sort_desc(s).len() == s.len(),
    decreases s.len(),
{
    broadcast use vstd::seq_lib::group_to_multiset_ensures;
    if s.len() > 0 {
        lemma_sort_permutes(s.drop_last());
        lemma_insert_multiset(sort_desc(s.drop_last()), s.last());
        assert(s =~= s.drop_last().push(s.last()));
    }
}

proof fn lemma_insert_sorted(s: Seq<Detection>, d: Detection)
    requires
        sorted_desc(s),
        all_wf(s),
        d.wf(),
    ensures
        sorted_desc(insert_desc(s, d)),
        all_wf(insert_desc(s, d)),
    decreases s.len(),
{
    broadcast use vstd::seq_lib::group_to_multiset_ensures;
    lemma_insert_multiset(s, d);
    let r = insert_desc(s, d);
    assert forall|k: int| 0 <= k < r.len() implies r[k] == d || s.contains(r[k]) by {
        assert(r.to_multiset().count(r[k]) > 0);
    }
    if s.len() == 0 {
    } else if ratio_lt(s[0].confidence, d.confidence) {
        assert forall|i: int, j: int| 0 <= i < j < r.len() implies !ratio_lt(
            #[trigger] r[i].confidence,
            #[trigger] r[j].confidence,
        ) by {
            if i == 0 {
                lemma_lt_asym(s[0].confidence, d.confidence);
                if j > 1 {
                    lemma_ge_trans(d.confidence, s[0].confidence, s[j - 1].confidence);
                }
            } else {
                assert(r[i] == s[i - 1] && r[j] == s[j - 1]);
            }
        }
    } else {
        let rest = s.drop_first();
        assert(sorted_desc(rest)) by {
            assert forall|i: int, j: int| 0 <= i < j < rest.len() implies !ratio_lt(
                #[trigger] rest[i].confidence,
                #[trigger] rest[j].confidence,
            ) by {
                assert(rest[i] == s[i + 1] && rest[j] == s[j + 1]);
            }
        }
        lemma_insert_sorted(rest, d);
        let ri = insert_desc(rest, d);
        lemma_insert_multiset(rest, d);
        assert forall|k: int| 0 <= k < ri.len() implies ri[k] == d || rest.contains(ri[k]) by {
            assert(ri.to_multiset().count(ri[k]) > 0);
        }
        assert forall|i: int, j: int| 0 <= i < j < r.len() implies !ratio_lt(
            #[trigger] r[i].confidence,
            #[trigger] r[j].confidence,
        ) by {
            if i == 0 {
                assert(r[j] == ri[j - 1]);
                if ri[j - 1] != d {
                    let m = rest.index_of(ri[j - 1]);
                    assert(rest[m] == s[m + 1]);
                }
            } else {
                assert(r[i] == ri[i - 1] && r[j] == ri[j - 1]);
            }
        }
    }
}

/// Sorting yields confidences in non-increasing order.
pub proof fn lemma_sort_sorted(s: Seq<Detection>)
    requires
        all_wf(s),
    ensures
        sorted_desc(sort_desc(s)),
        all_wf(sort_desc(s)),
    decreases s.len(),
{
    if s.len() > 0 {
        let init = s.drop_last();
        assert(all_wf(init)) by {
            assert forall|i: int| 0 <= i < init.len() implies (#[trigger] init[i]).wf() by {
                assert(init[i] == s[i]);
            }
        }
        lemma_sort_sorted(init);
        lemma_insert_sorted(sort_desc(init), s.last());
    }
}

} // verus!
