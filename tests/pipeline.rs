use rknpu2_rs::decode::{Branch, QuantTensor};
use rknpu2_rs::error::Error;
use rknpu2_rs::geometry::Rect;
use rknpu2_rs::nms::Detection;
use rknpu2_rs::pipeline::run;
use rknpu2_rs::quant::{Ratio, Scale};
use rknpu2_rs::tensor::{TensorDescriptor, TensorView};

const HALF: Ratio = Ratio { num: 1, den: 2 };
const SCORE_SCALE: Scale = Scale { num: 1, den: 100 };
const BOX_SCALE: Scale = Scale { num: 1, den: 4 };

fn desc(dims: &[u32], scale: Scale) -> TensorDescriptor {
    TensorDescriptor { dims: dims.to_vec(), zero_point: 0, scale, quant_type: 2 }
}

/// Three tensors of a 2x2 grid with two classes where only cell (0, 0) qualifies:
/// score sum 0.9, class 0 at 0.8, class 1 at 0.3, box offsets 0.25, 0.25, 0.5, 1.0.
fn one_cell_branch() -> (Vec<TensorDescriptor>, Vec<Vec<i8>>) {
    let mut boxes = vec![0i8; 16];
    boxes[0] = 1;
    boxes[4] = 1;
    boxes[8] = 2;
    boxes[12] = 4;
    let mut scores = vec![-50i8; 8];
    scores[0] = 80;
    scores[4] = 30;
    let mut sums = vec![-50i8; 4];
    sums[0] = 90;
    (
        vec![desc(&[1, 4, 2, 2], BOX_SCALE), desc(&[1, 2, 2, 2], SCORE_SCALE), desc(&[1, 1, 2, 2], SCORE_SCALE)],
        vec![boxes, scores, sums],
    )
}

fn quiet_branch() -> (Vec<TensorDescriptor>, Vec<Vec<i8>>) {
    (
        vec![desc(&[1, 4, 2, 2], BOX_SCALE), desc(&[1, 2, 2, 2], SCORE_SCALE), desc(&[1, 1, 2, 2], SCORE_SCALE)],
        vec![vec![0i8; 16], vec![100i8; 8], vec![-100i8; 4]],
    )
}

fn model(branches: Vec<(Vec<TensorDescriptor>, Vec<Vec<i8>>)>) -> (Vec<TensorDescriptor>, Vec<Vec<i8>>) {
    let mut descs = Vec::new();
    let mut bufs = Vec::new();
    for (d, b) in branches {
        descs.extend(d);
        bufs.extend(b);
    }
    (descs, bufs)
}

#[test]
fn run_decodes_single_cell() {
    let (descs, bufs) = model(vec![one_cell_branch(), quiet_branch(), quiet_branch()]);
    // stride = 64 / 2 = 32
    // x1 = (-0.25 + 0 + 0.5) * 32 = 8, y1 = 8, x2 = (0.5 + 0.5) * 32 = 32, y2 = (1.0 + 0.5) * 32 = 48
    let r = run(&descs, &bufs, 64, HALF, HALF).unwrap();
    assert_eq!(
        r,
        vec![Detection {
            class_id: 0,
            confidence: Ratio { num: 80, den: 100 },
            rect: Rect { x: 8, y: 8, width: 24, height: 40 },
        }]
    );
}

#[test]
fn run_rejects_five_outputs() {
    let (mut descs, mut bufs) = model(vec![one_cell_branch(), quiet_branch()]);
    descs.truncate(5);
    bufs.truncate(5);
    assert_eq!(run(&descs, &bufs, 64, HALF, HALF), Err(Error::InvalidOutputCount));
}

#[test]
fn run_rejects_three_outputs() {
    let (descs, bufs) = one_cell_branch();
    assert_eq!(run(&descs, &bufs, 64, HALF, HALF), Err(Error::InvalidOutputCount));
}

#[test]
fn run_without_qualifying_cells_is_empty() {
    let (descs, bufs) = model(vec![quiet_branch(), quiet_branch(), quiet_branch()]);
    assert_eq!(run(&descs, &bufs, 64, HALF, HALF), Ok(vec![]));
}

#[test]
fn run_suppresses_across_branches_by_class() {
    // the same cell found by two branches: one box survives
    let (descs, bufs) = model(vec![one_cell_branch(), one_cell_branch(), quiet_branch()]);
    let r = run(&descs, &bufs, 64, HALF, HALF).unwrap();
    assert_eq!(r.len(), 1);
    assert_eq!(r[0].rect, Rect { x: 8, y: 8, width: 24, height: 40 });
}

#[test]
fn run_rejects_unknown_quant_type() {
    let (mut descs, bufs) = model(vec![one_cell_branch(), quiet_branch(), quiet_branch()]);
    descs[4].quant_type = 7;
    assert_eq!(run(&descs, &bufs, 64, HALF, HALF), Err(Error::UnsupportedQuantType));
}

#[test]
fn run_rejects_zero_scale() {
    let (mut descs, bufs) = model(vec![quiet_branch(), quiet_branch(), quiet_branch()]);
    descs[0].scale = Scale { num: 0, den: 1 };
    assert_eq!(run(&descs, &bufs, 64, HALF, HALF), Err(Error::UnsupportedQuantType));
}

#[test]
fn run_rejects_multi_bin_boxes() {
    let (mut descs, bufs) = model(vec![quiet_branch(), quiet_branch(), quiet_branch()]);
    descs[3].dims = vec![1, 64, 2, 2];
    assert_eq!(run(&descs, &bufs, 64, HALF, HALF), Err(Error::UnsupportedDflLength));
}

#[test]
fn run_rejects_short_buffer() {
    let (descs, mut bufs) = model(vec![one_cell_branch(), quiet_branch(), quiet_branch()]);
    bufs[0].truncate(12);
    assert_eq!(run(&descs, &bufs, 64, HALF, HALF), Err(Error::IndexOutOfRange));
}

#[test]
fn run_rejects_missing_buffer() {
    let (descs, mut bufs) = model(vec![quiet_branch(), quiet_branch(), quiet_branch()]);
    bufs.pop();
    assert_eq!(run(&descs, &bufs, 64, HALF, HALF), Err(Error::IndexOutOfRange));
}

#[test]
fn branch_decode_clamps_negative_edges() {
    let (descs, mut bufs) = one_cell_branch();
    bufs[0][0] = 8; // left offset 2.0 -> x1 = (-2 + 0.5) * 32 < 0
    let boxes = TensorView::new(&bufs[0], &descs[0].dims).unwrap();
    let scores = TensorView::new(&bufs[1], &descs[1].dims).unwrap();
    let sums = TensorView::new(&bufs[2], &descs[2].dims).unwrap();
    let branch = Branch {
        boxes: QuantTensor { view: boxes, zero_point: 0, scale: BOX_SCALE },
        scores: QuantTensor { view: scores, zero_point: 0, scale: SCORE_SCALE },
        score_sum: QuantTensor { view: sums, zero_point: 0, scale: SCORE_SCALE },
        stride: 32,
    };
    let r = branch.decode(HALF).unwrap();
    // x1 = -48 -> 0, width = (0.5 + 2.0) * 32 = 80
    assert_eq!(r[0].rect, Rect { x: 0, y: 8, width: 80, height: 40 });
}
