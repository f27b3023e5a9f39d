//! The post-processing entry point: validates the output metadata, decodes the
//! three branches and applies non-maximum suppression.
use crate::decode::{Branch, QuantTensor};
use crate::error::Error;
use crate::nms::{nms, nms_spec, Detection};
use crate::quant::Ratio;
use crate::tensor::{quant_kind_spec, view_spec, QuantKind, TensorDescriptor, TensorView};
use vstd::prelude::*;

verus! {

/// Whether `n` output tensors split into three branches of at least three tensors.
pub open spec fn valid_output_count(n: int) -> bool {
    n % 3 == 0 && n / 3 >= 3
}

/// The tensor at `k`: its quantization must be recognized with a positive scale,
/// its shape must have at most four dimensions and its buffer must exist.
pub open spec fn tensor_spec<'a>(
    descs: Seq<TensorDescriptor>,
    bufs: &'a [Vec<i8>],
    k: int,
) -> Result<QuantTensor<'a>, Error> {
    let d = descs[k];
    if quant_kind_spec(d.quant_type) is None || !d.scale.wf() {
        Err(Error::UnsupportedQuantType)
    } else if d.dims@.len() > 4 || k >= bufs@.len() {
        Err(Error::IndexOutOfRange)
    } else {
        Ok(QuantTensor { view: view_spec(&bufs@[k], d.dims@), zero_point: d.zero_point, scale: d.scale })
    }
}

/// Pixels per cell for a grid of `grid_h` rows over an input of `input_height` rows.
pub open spec fn stride_spec(input_height: int, grid_h: int) -> int {
    if grid_h == 0 {
        0
    } else {
        input_height / grid_h
    }
}

/// Branch `b`: box, score and score-sum tensors at `b * per_branch` and the two after it.
pub open spec fn branch_spec<'a>(
    descs: Seq<TensorDescriptor>,
    bufs: &'a [Vec<i8>],
    input_height: u32,
    b: int,
) -> Result<Branch<'a>, Error> {
    let k = b * (descs.len() / 3);
    match tensor_spec(descs, bufs, k) {
        Err(e) => Err(e),
        Ok(boxes) => match tensor_spec(descs, bufs, k + 1) {
            Err(e) => Err(e),
            Ok(scores) => match tensor_spec(descs, bufs, k + 2) {
                Err(e) => Err(e),
                Ok(score_sum) => Ok(
                    Branch {
                        boxes,
                        scores,
                        score_sum,
                        stride: stride_spec(input_height as int, boxes.view.height as int) as u32,
                    },
                ),
            },
        },
    }
}

pub open spec fn branch_detections(
    descs: Seq<TensorDescriptor>,
    bufs: &[Vec<i8>],
    input_height: u32,
    conf: Ratio,
    b: int,
) -> Result<Seq<Detection>, Error> {
    match branch_spec(descs, bufs, input_height, b) {
        Err(e) => Err(e),
        Ok(br) => br.decode_spec(conf),
    }
}

/// The detections of branches `0 .. count` in order, or the first error.
pub open spec fn decoded_prefix(
    descs: Seq<TensorDescriptor>,
    bufs: &[Vec<i8>],
    input_height: u32,
    conf: Ratio,
    count: int,
) -> Result<Seq<Detection>, Error>
    decreases count,
{
    if count <= 0 {
        Ok(Seq::empty())
    } else {
        match decoded_prefix(descs, bufs, input_height, conf, count - 1) {
            Err(e) => Err(e),
            Ok(s) => match branch_detections(descs, bufs, input_height, conf, count - 1) {
                Err(e) => Err(e),
                Ok(d) => Ok(s + d),
            },
        }
    }
}

/// The detections of the three branches in order, or the first error.
pub open spec fn decoded_spec(
    descs: Seq<TensorDescriptor>,
    bufs: &[Vec<i8>],
    input_height: u32,
    conf: Ratio,
) -> Result<Seq<Detection>, Error> {
    decoded_prefix(descs, bufs, input_height, conf, 3)
}

pub open spec fn run_spec(
    descs: Seq<TensorDescriptor>,
    bufs: &[Vec<i8>],
    input_height: u32,
    conf: Ratio,
    iou: Ratio,
) -> Result<Seq<Detection>, Error> {
    if !valid_output_count(descs.len() as int) {
        Err(Error::InvalidOutputCount)
    } else {
        match decoded_spec(descs, bufs, input_height, conf) {
            Err(e) => Err(e),
            Ok(all) => if all.len() == 0 {
                Ok(all)
            } else {
                Ok(nms_spec(all, iou))
            },
        }
    }
}

proof fn lemma_prefix_err(
    descs: Seq<TensorDescriptor>,
    bufs: &[Vec<i8>],
    input_height: u32,
    conf: Ratio,
    c: int,
    upto: int,
)
    requires
        0 <= c <= upto,
        decoded_prefix(descs, bufs, input_height, conf, c) is Err,
    ensures
        decoded_prefix(descs, bufs, input_height, conf, upto) == decoded_prefix(
            descs,
            bufs,
            input_height,
            conf,
            c,
        ),
    decreases upto,
{
    if upto > c {
        lemma_prefix_err(descs, bufs, input_height, conf, c, upto - 1);
    }
}

fn tensor_at<'a>(descs: &[TensorDescriptor], bufs: &'a [Vec<i8>], k: usize) -> (r: Result<
    QuantTensor<'a>,
    Error,
>)
    requires
        k < descs@.len(),
    ensures
        r == tensor_spec(descs@, bufs, k as int),
{
    let d = &descs[k];
    match QuantKind::from_code(d.quant_type) {
        Err(e) => return Err(e),
        Ok(_) => {},
    }
    if !d.scale.is_valid() {
        return Err(Error::UnsupportedQuantType);
    }
    if k >= bufs.len() {
        return Err(Error::IndexOutOfRange);
    }
    let view = match TensorView::new(&bufs[k], d.dims.as_slice()) {
        Err(e) => return Err(e),
        Ok(v) => v,
    };
    Ok(QuantTensor { view, zero_point: d.zero_point, scale: d.scale })
}

fn branch_at<'a>(descs: &[TensorDescriptor], bufs: &'a [Vec<i8>], input_height: u32, b: usize) -> (r:
    Result<Branch<'a>, Error>)
    requires
        valid_output_count(descs@.len() as int),
        b < 3,
    ensures
        r == branch_spec(descs@, bufs, input_height, b as int),
        r matches Ok(br) ==> br.wf(),
{
    let per = descs.len() / 3;
    assert(b * per + 2 < descs@.len()) by (nonlinear_arith)
        requires
            b < 3,
            per == descs@.len() / 3,
            descs@.len() % 3 == 0,
            per >= 3,
    ;
    let k = b * per;
    let boxes = match tensor_at(descs, bufs, k) {
        Err(e) => return Err(e),
        Ok(t) => t,
    };
    let scores = match tensor_at(descs, bufs, k + 1) {
        Err(e) => return Err(e),
        Ok(t) => t,
    };
    let score_sum = match tensor_at(descs, bufs, k + 2) {
        Err(e) => return Err(e),
        Ok(t) => t,
    };
    let gh = boxes.view.height;
    let stride = if gh == 0 {
        0
    } else {
        input_height / gh
    };
    Ok(Branch { boxes, scores, score_sum, stride })
}

/// Turns the output tensors of one inference into the final detections.
///
/// `descriptors[k]` and `buffers[k]` describe and hold output `k`. Each of the
/// three branches decodes its grid at `conf_threshold`; the detections of all
/// branches then go through non-maximum suppression at `iou_threshold`.
pub fn run(
    descriptors: &[TensorDescriptor],
    buffers: &[Vec<i8>],
    input_height: u32,
    conf_threshold: Ratio,
    iou_threshold: Ratio,
) -> (r: Result<Vec<Detection>, Error>)
    requires
        conf_threshold.wf(),
        iou_threshold.wf(),
    ensures
        r matches Ok(v) ==> run_spec(descriptors@, buffers, input_height, conf_threshold, iou_threshold)
            == Ok::<Seq<Detection>, Error>(v@),
        r matches Err(e) ==> run_spec(descriptors@, buffers, input_height, conf_threshold, iou_threshold)
            == Err::<Seq<Detection>, Error>(e),
        !valid_output_count(descriptors@.len() as int) ==> r == Err::<Vec<Detection>, Error>(
            Error::InvalidOutputCount,
        ),
{
    let n = descriptors.len();
    if n % 3 != 0 || n / 3 < 3 {
        return Err(Error::InvalidOutputCount);
    }
    let mut all: Vec<Detection> = Vec::new();
    for b in 0..3usize
        invariant
            valid_output_count(descriptors@.len() as int),
            conf_threshold.wf(),
            all@ == decoded_prefix(descriptors@, buffers, input_height, conf_threshold, b as int)->Ok_0,
            decoded_prefix(descriptors@, buffers, input_height, conf_threshold, b as int) is Ok,
    {
        let branch = match branch_at(descriptors, buffers, input_height, b) {
            Err(e) => {
                proof {
                    lemma_prefix_err(descriptors@, buffers, input_height, conf_threshold, b as int + 1, 3);
                }
                return Err(e);
            },
            Ok(br) => br,
        };
        let mut found = match branch.decode(conf_threshold) {
            Err(e) => {
                proof {
                    lemma_prefix_err(descriptors@, buffers, input_height, conf_threshold, b as int + 1, 3);
                }
                return Err(e);
            },
            Ok(v) => v,
        };
        proof {
            assert(decoded_prefix(descriptors@, buffers, input_height, conf_threshold, b + 1)
                == Ok::<Seq<Detection>, Error>(all@ + found@));
        }
        all.append(&mut found);
    }
    if all.len() == 0 {
        return Ok(all);
    }
    Ok(nms(&all, iou_threshold))
}

/// When no cell of any branch qualifies, the result is empty and suppression
/// is not involved.
pub proof fn lemma_run_empty(
    descs: Seq<TensorDescriptor>,
    bufs: &[Vec<i8>],
    input_height: u32,
    conf: Ratio,
    iou: Ratio,
)
    requires
        valid_output_count(descs.len() as int),
        decoded_spec(descs, bufs, input_height, conf) == Ok::<Seq<Detection>, Error>(Seq::empty()),
    ensures
        run_spec(descs, bufs, input_height, conf, iou) == Ok::<Seq<Detection>, Error>(Seq::empty()),
{
}

} // verus!
