//! Decoding one detection branch: walks the anchor grid, filters cells by
//! confidence and turns the surviving cells into detections.
use crate::error::Error;
use crate::geometry::Rect;
use crate::nms::Detection;
use crate::quant::{dequantize, dequantize_spec, quantize, quantize_spec, trunc_div, div_trunc, Ratio, Scale};
use crate::tensor::TensorView;
use vstd::prelude::*;

verus! {

/// A tensor view together with its quantization parameters.
pub struct QuantTensor<'a> {
    pub view: TensorView<'a>,
    pub zero_point: i32,
    pub scale: Scale,
}

/// The three tensors of one branch, `[1, 4, H, W]` box offsets, `[1, classes, H, W]`
/// class scores and `[1, 1, H, W]` score sums, and the branch's pixels per cell.
pub struct Branch<'a> {
    pub boxes: QuantTensor<'a>,
    pub scores: QuantTensor<'a>,
    pub score_sum: QuantTensor<'a>,
    pub stride: u32,
}

/// `v` cast to `u32` the way a float is: negatives become `0`, large values `u32::MAX`.
pub open spec fn saturate_u32(v: int) -> u32 {
    if v < 0 {
        0
    } else if v > u32::MAX {
        u32::MAX
    } else {
        v as u32
    }
}

/// `(b + cell + 1/2) * stride` as a numerator over `2 * scale.den`, where
/// `b = (q - zero_point) * scale` is a dequantized box offset, negated when
/// `negate` holds.
pub open spec fn edge_num(q: int, zero_point: int, scale: Scale, negate: bool, cell: int, stride: int) -> int {
    let b2 = 2 * ((q - zero_point) * scale.num);
    ((if negate { -b2 } else { b2 }) + (2 * cell + 1) * scale.den) * stride
}

impl<'a> Branch<'a> {
    pub open spec fn wf(&self) -> bool {
        self.boxes.scale.wf() && self.scores.scale.wf() && self.score_sum.scale.wf()
    }

    pub open spec fn grid_h(&self) -> int {
        self.boxes.view.height as int
    }

    pub open spec fn grid_w(&self) -> int {
        self.boxes.view.width as int
    }

    /// Regression bins per box coordinate.
    pub open spec fn dfl_len(&self) -> int {
        self.boxes.view.channels as int / 4
    }

    /// The highest class score at cell `(i, j)` among classes `0 .. upto` that is
    /// above `thr`, with its class; the first class wins a tie.
    pub open spec fn best_class(&self, thr: int, i: int, j: int, upto: int) -> Result<
        Option<(i8, u32)>,
        Error,
    >
        decreases upto,
    {
        if upto <= 0 {
            Ok(None)
        } else {
            match self.best_class(thr, i, j, upto - 1) {
                Err(e) => Err(e),
                Ok(prev) => match self.scores.view.read(0, upto - 1, i, j) {
                    Err(e) => Err(e),
                    Ok(v) => if v > thr && (prev is None || v > prev->Some_0.0) {
                        Ok(Some((v, (upto - 1) as u32)))
                    } else {
                        Ok(prev)
                    },
                },
            }
        }
    }

    /// The box of cell `(i, j)` from its four quantized offsets to the left, top,
    /// right and bottom edges.
    pub open spec fn cell_rect(&self, q: (i8, i8, i8, i8), i: int, j: int) -> Rect {
        let zp = self.boxes.zero_point as int;
        let s = self.boxes.scale;
        let st = self.stride as int;
        let x1 = edge_num(q.0 as int, zp, s, true, j, st);
        let y1 = edge_num(q.1 as int, zp, s, true, i, st);
        let x2 = edge_num(q.2 as int, zp, s, false, j, st);
        let y2 = edge_num(q.3 as int, zp, s, false, i, st);
        let d = 2 * s.den;
        Rect {
            x: saturate_u32(trunc_div(x1, d)),
            y: saturate_u32(trunc_div(y1, d)),
            width: saturate_u32(trunc_div(x2 - x1, d)),
            height: saturate_u32(trunc_div(y2 - y1, d)),
        }
    }

    pub open spec fn box_offsets(&self, i: int, j: int) -> Result<(i8, i8, i8, i8), Error> {
        let v = self.boxes.view;
        match (v.read(0, 0, i, j), v.read(0, 1, i, j), v.read(0, 2, i, j), v.read(0, 3, i, j)) {
            (Ok(a), Ok(b), Ok(c), Ok(d)) => Ok((a, b, c, d)),
            _ => Err(Error::IndexOutOfRange),
        }
    }

    /// The detection of cell `(i, j)`, if its score sum is at least `sum_thr` and
    /// some class score is above `score_thr`.
    pub open spec fn cell(&self, sum_thr: int, score_thr: int, i: int, j: int) -> Result<
        Option<Detection>,
        Error,
    > {
        match self.score_sum.view.read(0, 0, i, j) {
            Err(e) => Err(e),
            Ok(total) => if total < sum_thr {
                Ok(None)
            } else {
                match self.best_class(score_thr, i, j, self.scores.view.channels as int) {
                    Err(e) => Err(e),
                    Ok(None) => Ok(None),
                    Ok(Some((q, class_id))) => match self.box_offsets(i, j) {
                        Err(e) => Err(e),
                        Ok(offs) => Ok(
                            Some(
                                Detection {
                                    class_id,
                                    confidence: dequantize_spec(
                                        q as int,
                                        self.scores.zero_point as int,
                                        self.scores.scale,
                                    ),
                                    rect: self.cell_rect(offs, i, j),
                                },
                            ),
                        ),
                    },
                }
            },
        }
    }

    /// Detections of all cells before `(i, j)` in row-major order, or the first error.
    pub open spec fn grid(&self, sum_thr: int, score_thr: int, i: int, j: int) -> Result<
        Seq<Detection>,
        Error,
    >
        decreases i, j,
    {
        if j <= 0 {
            if i <= 0 {
                Ok(Seq::empty())
            } else {
                self.grid(sum_thr, score_thr, i - 1, self.grid_w())
            }
        } else {
            match self.grid(sum_thr, score_thr, i, j - 1) {
                Err(e) => Err(e),
                Ok(s) => match self.cell(sum_thr, score_thr, i, j - 1) {
                    Err(e) => Err(e),
                    Ok(None) => Ok(s),
                    Ok(Some(d)) => Ok(s.push(d)),
                },
            }
        }
    }

    /// All detections of the branch at confidence threshold `conf`.
    pub open spec fn decode_spec(&self, conf: Ratio) -> Result<Seq<Detection>, Error> {
        if self.dfl_len() > 1 {
            Err(Error::UnsupportedDflLength)
        } else {
            self.grid(
                quantize_spec(conf, self.score_sum.zero_point as int, self.score_sum.scale),
                quantize_spec(conf, self.scores.zero_point as int, self.scores.scale),
                self.grid_h(),
                0,
            )
        }
    }
}

proof fn lemma_best_class_err<'a>(b: &Branch<'a>, thr: int, i: int, j: int, c: int, upto: int)
    requires
        0 <= c <= upto,
        b.best_class(thr, i, j, c) is Err,
    ensures
        b.best_class(thr, i, j, upto) == b.best_class(thr, i, j, c),
    decreases upto,
{
    if upto > c {
        lemma_best_class_err(b, thr, i, j, c, upto - 1);
    }
}

/// Once decoding hits an error, every later prefix of the grid carries it.
proof fn lemma_grid_err<'a>(b: &Branch<'a>, s: int, t: int, i: int, j: int, i2: int, j2: int)
    requires
        0 <= i,
        0 <= j <= b.grid_w(),
        0 <= j2 <= b.grid_w(),
        i < i2 || (i == i2 && j <= j2),
        b.grid(s, t, i, j) is Err,
    ensures
        b.grid(s, t, i2, j2) == b.grid(s, t, i, j),
    decreases i2, j2,
{
    if i == i2 && j == j2 {
    } else if j2 > 0 {
        lemma_grid_err(b, s, t, i, j, i2, j2 - 1);
    } else {
        lemma_grid_err(b, s, t, i, j, i2 - 1, b.grid_w());
    }
}

/// Numerator of one box edge (see `edge_num`).
fn edge(q: i8, zero_point: i32, scale: Scale, negate: bool, cell: u32, stride: u32) -> (r: i128)
    requires
        scale.wf(),
    ensures
        r == edge_num(q as int, zero_point as int, scale, negate, cell as int, stride as int),
        -0x4_0000_0000_0000_0000_0000_0000 < r < 0x4_0000_0000_0000_0000_0000_0000,
{
    let d: i128 = q as i128 - zero_point as i128;
    assert(-0x8000_0000_0000_0000 < d * scale.num < 0x8000_0000_0000_0000) by (nonlinear_arith)
        requires
            -0x8000_007f <= d <= 0x8000_007f,
            0 < scale.num < 0x8000_0000,
    ;
    let m: i128 = d * scale.num as i128;
    assert(-0x8000_0000_0000_0000 < m < 0x8000_0000_0000_0000);
    let twice: i128 = 2 * m;
    let signed: i128 = if negate { -twice } else { twice };
    assert(-0x1_0000_0000_0000_0000 < signed < 0x1_0000_0000_0000_0000);
    assert(0 < (2 * cell + 1) * scale.den < 0x2_0000_0000 * 0x1_0000_0000) by (nonlinear_arith)
        requires
            0 <= cell < 0x1_0000_0000,
            0 < scale.den < 0x1_0000_0000,
    ;
    let center: i128 = (2 * cell as i128 + 1) * scale.den as i128;
    let sum: i128 = signed + center;
    assert(-0x4_0000_0000_0000_0000_0000_0000 < sum * stride < 0x4_0000_0000_0000_0000_0000_0000)
        by (nonlinear_arith)
        requires
            -0x4_0000_0000_0000_0000 < sum < 0x4_0000_0000_0000_0000,
            0 <= stride < 0x1_0000_0000,
    ;
    let r = sum * stride as i128;
    assert(r == edge_num(q as int, zero_point as int, scale, negate, cell as int, stride as int))
        by (nonlinear_arith)
        requires
            r == sum * stride,
            sum == signed + center,
            center == (2 * cell + 1) * scale.den,
            signed == (if negate { -(2 * m) } else { 2 * m }),
            m == d * scale.num,
            d == q - zero_point,
    ;
    r
}

fn saturate(v: i128) -> (r: u32)
    ensures
        r == saturate_u32(v as int),
{
    if v < 0 {
        0
    } else if v > u32::MAX as i128 {
        u32::MAX
    } else {
        v as u32
    }
}

impl<'a> Branch<'a> {
    fn find_best_class(&self, thr: i8, i: u32, j: u32) -> (r: Result<Option<(i8, u32)>, Error>)
        ensures
            r == self.best_class(thr as int, i as int, j as int, self.scores.view.channels as int),
    {
        let n = self.scores.view.channels;
        let mut best: Option<(i8, u32)> = None;
        for c in 0..n
            invariant
                n == self.scores.view.channels,
                self.best_class(thr as int, i as int, j as int, c as int) == Ok::<
                    Option<(i8, u32)>,
                    Error,
                >(best),
        {
            match self.scores.view.get(0, c, i, j) {
                Err(e) => {
                    proof {
                        lemma_best_class_err(self, thr as int, i as int, j as int, c + 1, n as int);
                    }
                    return Err(e);
                },
                Ok(v) => {
                    let better = match best {
                        None => true,
                        Some(p) => v > p.0,
                    };
                    if v > thr && better {
                        best = Some((v, c));
                    }
                },
            }
        }
        Ok(best)
    }

    fn decode_rect(&self, q: (i8, i8, i8, i8), i: u32, j: u32) -> (r: Rect)
        requires
            self.wf(),
        ensures
            r == self.cell_rect(q, i as int, j as int),
    {
        let zp = self.boxes.zero_point;
        let s = self.boxes.scale;
        let st = self.stride;
        let x1 = edge(q.0, zp, s, true, j, st);
        let y1 = edge(q.1, zp, s, true, i, st);
        let x2 = edge(q.2, zp, s, false, j, st);
        let y2 = edge(q.3, zp, s, false, i, st);
        let d: i128 = 2 * s.den as i128;
        Rect {
            x: saturate(div_trunc(x1, d)),
            y: saturate(div_trunc(y1, d)),
            width: saturate(div_trunc(x2 - x1, d)),
            height: saturate(div_trunc(y2 - y1, d)),
        }
    }

    fn decode_cell(&self, sum_thr: i8, score_thr: i8, i: u32, j: u32) -> (r: Result<Option<Detection>, Error>)
        requires
            self.wf(),
        ensures
            r == self.cell(sum_thr as int, score_thr as int, i as int, j as int),
    {
        let total = match self.score_sum.view.get(0, 0, i, j) {
            Err(e) => return Err(e),
            Ok(v) => v,
        };
        if total < sum_thr {
            return Ok(None);
        }
        let (q, class_id) = match self.find_best_class(score_thr, i, j) {
            Err(e) => return Err(e),
            Ok(None) => return Ok(None),
            Ok(Some(p)) => p,
        };
        let v = &self.boxes.view;
        let offs = match (v.get(0, 0, i, j), v.get(0, 1, i, j), v.get(0, 2, i, j), v.get(0, 3, i, j)) {
            (Ok(a), Ok(b), Ok(c), Ok(d)) => (a, b, c, d),
            _ => return Err(Error::IndexOutOfRange),
        };
        let confidence = dequantize(q, self.scores.zero_point, self.scores.scale);
        let rect = self.decode_rect(offs, i, j);
        Ok(Some(Detection { class_id, confidence, rect }))
    }

    /// Decodes every cell of the branch at confidence threshold `conf_threshold`.
    pub fn decode(&self, conf_threshold: Ratio) -> (r: Result<Vec<Detection>, Error>)
        requires
            self.wf(),
            conf_threshold.wf(),
        ensures
            r matches Ok(v) ==> self.decode_spec(conf_threshold) == Ok::<Seq<Detection>, Error>(v@),
            r matches Err(e) ==> self.decode_spec(conf_threshold) == Err::<Seq<Detection>, Error>(e),
    {
        if self.boxes.view.channels / 4 > 1 {
            return Err(Error::UnsupportedDflLength);
        }
        let sum_thr = quantize(conf_threshold, self.score_sum.zero_point, self.score_sum.scale);
        let score_thr = quantize(conf_threshold, self.scores.zero_point, self.scores.scale);
        let gh = self.boxes.view.height;
        let gw = self.boxes.view.width;
        let ghost st = sum_thr as int;
        let ghost ct = score_thr as int;
        let mut out: Vec<Detection> = Vec::new();
        for i in 0..gh
            invariant
                self.wf(),
                gh == self.grid_h(),
                gw == self.grid_w(),
                st == sum_thr as int,
                ct == score_thr as int,
                self.dfl_len() <= 1,
                st == quantize_spec(conf_threshold, self.score_sum.zero_point as int, self.score_sum.scale),
                ct == quantize_spec(conf_threshold, self.scores.zero_point as int, self.scores.scale),
                self.grid(st, ct, i as int, 0) == Ok::<Seq<Detection>, Error>(out@),
        {
            for j in 0..gw
                invariant
                    self.wf(),
                    0 <= i < gh,
                    gh == self.grid_h(),
                    gw == self.grid_w(),
                    st == sum_thr as int,
                    ct == score_thr as int,
                    self.dfl_len() <= 1,
                    st == quantize_spec(conf_threshold, self.score_sum.zero_point as int, self.score_sum.scale),
                    ct == quantize_spec(conf_threshold, self.scores.zero_point as int, self.scores.scale),
                    self.grid(st, ct, i as int, j as int) == Ok::<Seq<Detection>, Error>(out@),
            {
                match self.decode_cell(sum_thr, score_thr, i, j) {
                    Err(e) => {
                        proof {
                            assert(self.grid(st, ct, i as int, j + 1) == Err::<Seq<Detection>, Error>(e));
                            lemma_grid_err(self, st, ct, i as int, j + 1, gh as int, 0);
                        }
                        return Err(e);
                    },
                    Ok(None) => {
                        assert(self.grid(st, ct, i as int, j + 1) == Ok::<Seq<Detection>, Error>(out@));
                    },
                    Ok(Some(d)) => {
                        out.push(d);
                        assert(self.grid(st, ct, i as int, j + 1) == Ok::<Seq<Detection>, Error>(out@));
                    },
                }
            }
            assert(self.grid(st, ct, i + 1, 0) == self.grid(st, ct, i as int, gw as int));
        }
        Ok(out)
    }
}

} // verus!
