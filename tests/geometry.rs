use rknpu2_rs::geometry::{iou, overlaps_beyond, Iou, Rect};
use rknpu2_rs::quant::Ratio;

fn rect(x: u32, y: u32, width: u32, height: u32) -> Rect {
    Rect { x, y, width, height }
}

#[test]
fn iou_partial_overlap() {
    let o = iou(rect(0, 0, 10, 10), rect(5, 0, 10, 10));
    assert_eq!(o, Iou { intersection_area: 50, union_area: 150 });
}

#[test]
fn iou_is_symmetric() {
    let a = rect(3, 4, 20, 7);
    let b = rect(10, 1, 5, 30);
    assert_eq!(iou(a, b), iou(b, a));
}

#[test]
fn iou_with_itself_is_one() {
    let a = rect(7, 9, 13, 2);
    let o = iou(a, a);
    assert!(o.union_area > 0);
    assert_eq!(o.intersection_area as u128, o.union_area);
}

#[test]
fn iou_of_disjoint_rects_is_zero() {
    assert_eq!(iou(rect(0, 0, 5, 5), rect(5, 0, 5, 5)).intersection_area, 0);
    assert_eq!(iou(rect(0, 0, 5, 5), rect(0, 9, 5, 5)).intersection_area, 0);
}

#[test]
fn iou_of_empty_rects() {
    assert_eq!(iou(rect(1, 1, 0, 0), rect(1, 1, 0, 0)), Iou { intersection_area: 0, union_area: 0 });
}

#[test]
fn iou_at_the_largest_coordinates() {
    let a = rect(u32::MAX, u32::MAX, u32::MAX, u32::MAX);
    let o = iou(a, a);
    let side = u32::MAX as u64;
    assert_eq!(o.intersection_area, side * side);
    assert_eq!(o.union_area, (side * side) as u128);
}

#[test]
fn overlap_threshold_is_strict() {
    let a = rect(0, 0, 10, 10);
    let b = rect(5, 0, 10, 10);
    // IoU is exactly 1/3
    assert!(!overlaps_beyond(a, b, Ratio { num: 1, den: 3 }));
    assert!(overlaps_beyond(a, b, Ratio { num: 33, den: 100 }));
    assert!(!overlaps_beyond(a, b, Ratio { num: 34, den: 100 }));
    assert!(!overlaps_beyond(a, a, Ratio { num: 1, den: 1 }));
    assert!(overlaps_beyond(a, rect(50, 50, 1, 1), Ratio { num: -1, den: 2 }));
}
