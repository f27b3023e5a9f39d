use rknpu2_rs::geometry::Rect;
use rknpu2_rs::nms::{confidence_lt, nms, sort_by_confidence, suppress, Detection};
use rknpu2_rs::quant::Ratio;

fn det(class_id: u32, num: i64, den: u32, x: u32, y: u32, w: u32, h: u32) -> Detection {
    Detection {
        class_id,
        confidence: Ratio { num, den },
        rect: Rect { x, y, width: w, height: h },
    }
}

const HALF: Ratio = Ratio { num: 1, den: 2 };

#[test]
fn nms_single_detection_unchanged() {
    let d = det(3, 7, 10, 1, 2, 3, 4);
    assert_eq!(nms(&vec![d], HALF), vec![d]);
}

#[test]
fn nms_empty_input() {
    assert_eq!(nms(&vec![], HALF), vec![]);
}

#[test]
fn nms_same_class_overlapping_keeps_more_confident() {
    let low = det(1, 6, 10, 0, 0, 10, 10);
    let high = det(1, 9, 10, 1, 0, 10, 10);
    // IoU = 90 / 110 > 1/2
    assert_eq!(nms(&vec![low, high], HALF), vec![high]);
    assert_eq!(nms(&vec![high, low], HALF), vec![high]);
}

#[test]
fn nms_same_class_below_threshold_keeps_both() {
    let low = det(1, 6, 10, 0, 0, 10, 10);
    let high = det(1, 9, 10, 6, 0, 10, 10);
    // IoU = 40 / 160 < 1/2
    assert_eq!(nms(&vec![low, high], HALF), vec![high, low]);
}

#[test]
fn nms_other_class_never_suppressed() {
    let a = det(1, 6, 10, 0, 0, 10, 10);
    let b = det(2, 9, 10, 0, 0, 10, 10);
    assert_eq!(nms(&vec![a, b], HALF), vec![b, a]);
}

#[test]
fn nms_suppressed_detection_does_not_suppress() {
    // b is suppressed by a; c overlaps b but not a, so c stays
    let a = det(0, 9, 10, 0, 0, 10, 10);
    let b = det(0, 8, 10, 4, 0, 10, 10);
    let c = det(0, 7, 10, 9, 0, 10, 10);
    assert_eq!(nms(&vec![c, b, a], Ratio { num: 2, den: 5 }), vec![a, c]);
}

#[test]
fn sort_is_descending_and_stable() {
    let a = det(0, 1, 2, 0, 0, 1, 1);
    let b = det(1, 3, 4, 0, 0, 1, 1);
    let c = det(2, 2, 4, 0, 0, 1, 1); // same value as a
    let d = det(3, -1, 3, 0, 0, 1, 1);
    assert_eq!(sort_by_confidence(&vec![a, b, c, d]), vec![b, a, c, d]);
    assert_eq!(sort_by_confidence(&vec![d, c, b, a]), vec![b, c, a, d]);
}

#[test]
fn suppress_keeps_order() {
    let a = det(0, 1, 2, 0, 0, 10, 10);
    let b = det(0, 9, 10, 0, 0, 10, 10);
    // suppression alone does not sort: the earlier one wins
    assert_eq!(suppress(&vec![a, b], HALF), vec![a]);
}

#[test]
fn confidence_comparison() {
    assert!(confidence_lt(Ratio { num: 1, den: 3 }, Ratio { num: 1, den: 2 }));
    assert!(!confidence_lt(Ratio { num: 2, den: 4 }, Ratio { num: 1, den: 2 }));
    assert!(confidence_lt(Ratio { num: -1, den: 1 }, Ratio { num: 0, den: 9 }));
}
