//! Tensor metadata and a bounds-checked, read-only NCHW view over an int8 buffer.
use crate::error::Error;
use crate::quant::Scale;
use vstd::prelude::*;

verus! {

/// Quantization kinds understood by the pipeline, with the engine's codes
/// `0`, `1` and `2`.
#[derive(Clone, Copy, Debug, PartialEq, Eq, Structural)]
pub enum QuantKind {
    Unquantized,
    SymmetricDfp,
    AffineAsymmetric,
}

pub open spec fn quant_kind_spec(code: u32) -> Option<QuantKind> {
    if code == 0 {
        Some(QuantKind::Unquantized)
    } else if code == 1 {
        Some(QuantKind::SymmetricDfp)
    } else if code == 2 {
        Some(QuantKind::AffineAsymmetric)
    } else {
        None
    }
}

impl QuantKind {
    /// Reads an engine quantization code.
    pub fn from_code(code: u32) -> (r: Result<QuantKind, Error>)
        ensures
            quant_kind_spec(code) matches Some(k) ==> r == Ok::<QuantKind, Error>(k),
            quant_kind_spec(code) is None ==> r == Err::<QuantKind, Error>(
                Error::UnsupportedQuantType,
            ),
    {
        if code == 0 {
            Ok(QuantKind::Unquantized)
        } else if code == 1 {
            Ok(QuantKind::SymmetricDfp)
        } else if code == 2 {
            Ok(QuantKind::AffineAsymmetric)
        } else {
            Err(Error::UnsupportedQuantType)
        }
    }

    /// Whether values of this kind are quantized at all.
    pub fn is_quantized(self) -> (r: bool)
        ensures
            r == !(self is Unquantized),
    {
        match self {
            QuantKind::Unquantized => false,
            _ => true,
        }
    }
}

/// Shape and quantization parameters of one tensor.
#[derive(Clone, Debug)]
pub struct TensorDescriptor {
    /// Dimensions in N, C, H, W order; fewer than four leave the leading ones at 1.
    pub dims: Vec<u32>,
    pub zero_point: i32,
    pub scale: Scale,
    /// The engine's quantization code (see `QuantKind::from_code`).
    pub quant_type: u32,
}

/// The first `n_dims` entries of an engine's fixed-size dimension array.
pub fn shape_prefix(dims: &[u32], n_dims: u32) -> (r: Result<Vec<u32>, Error>)
    ensures
        n_dims <= dims@.len() ==> (r matches Ok(v) && v@ == dims@.take(n_dims as int)),
        n_dims > dims@.len() ==> r == Err::<Vec<u32>, Error>(Error::IndexOutOfRange),
{
    if n_dims as usize > dims.len() {
        return Err(Error::IndexOutOfRange);
    }
    let n = n_dims as usize;
    let mut out: Vec<u32> = Vec::new();
    for i in 0..n
        invariant
            n <= dims@.len(),
            out@ == dims@.take(i as int),
    {
        out.push(dims[i]);
        assert(dims@.take(i + 1) =~= dims@.take(i as int).push(dims@[i as int]));
    }
    Ok(out)
}

/// Dimension `k` (0 = N .. 3 = W) of a shape of up to four dimensions.
pub open spec fn padded_dim(dims: Seq<u32>, k: int) -> int {
    let missing = 4 - dims.len();
    if k < missing {
        1
    } else {
        dims[k - missing] as int
    }
}

/// Row-major position of `(n, c, h, w)` in an `N x C x H x W` tensor.
pub open spec fn offset_spec(c_dim: int, h_dim: int, w_dim: int, n: int, c: int, h: int, w: int) -> int {
    ((n * c_dim + c) * h_dim + h) * w_dim + w
}

/// The view of `data` with the shape `dims` (at most four dimensions).
pub open spec fn view_spec<'a>(data: &'a Vec<i8>, dims: Seq<u32>) -> TensorView<'a> {
    TensorView {
        data,
        batch: padded_dim(dims, 0) as u32,
        channels: padded_dim(dims, 1) as u32,
        height: padded_dim(dims, 2) as u32,
        width: padded_dim(dims, 3) as u32,
    }
}

/// A read-only view of an int8 buffer as an `N x C x H x W` tensor.
pub struct TensorView<'a> {
    pub data: &'a Vec<i8>,
    pub batch: u32,
    pub channels: u32,
    pub height: u32,
    pub width: u32,
}

impl<'a> TensorView<'a> {
    /// The element at `(n, c, h, w)`, or `IndexOutOfRange` when a coordinate is
    /// not below its dimension or the position is past the buffer.
    pub open spec fn read(&self, n: int, c: int, h: int, w: int) -> Result<i8, Error> {
        let off = offset_spec(
            self.channels as int,
            self.height as int,
            self.width as int,
            n,
            c,
            h,
            w,
        );
        if 0 <= n < self.batch && 0 <= c < self.channels && 0 <= h < self.height && 0 <= w
            < self.width && off < self.data@.len() {
            Ok(self.data@[off])
        } else {
            Err(Error::IndexOutOfRange)
        }
    }

    /// Views `data` with the shape `dims`; more than four dimensions are refused.
    pub fn new(data: &'a Vec<i8>, dims: &[u32]) -> (r: Result<TensorView<'a>, Error>)
        ensures
            dims@.len() > 4 ==> r == Err::<TensorView<'a>, Error>(Error::IndexOutOfRange),
            dims@.len() <= 4 ==> r == Ok::<TensorView<'a>, Error>(view_spec(data, dims@)),
    {
        let len = dims.len();
        if len > 4 {
            return Err(Error::IndexOutOfRange);
        }
        let missing: usize = 4 - len;
        let mut shape: [u32; 4] = [1, 1, 1, 1];
        let mut k: usize = missing;
        while k < 4
            invariant
                missing <= k <= 4,
                missing == 4 - dims@.len(),
                forall|i: int| 0 <= i < missing ==> shape@[i] == 1,
                forall|i: int| missing <= i < k ==> shape@[i] == dims@[i - missing],
            decreases 4 - k,
        {
            shape[k] = dims[k - missing];
            k = k + 1;
        }
        Ok(TensorView { data, batch: shape[0], channels: shape[1], height: shape[2], width: shape[3] })
    }

    /// Bounds-checked read of the element at `(n, c, h, w)`.
    pub fn get(&self, n: u32, c: u32, h: u32, w: u32) -> (r: Result<i8, Error>)
        ensures
            r == self.read(n as int, c as int, h as int, w as int),
    {
        if n >= self.batch || c >= self.channels || h >= self.height || w >= self.width {
            return Err(Error::IndexOutOfRange);
        }
        proof {
            lemma_row_major_step(n as int, self.batch as int, c as int, self.channels as int);
            lemma_row_major_step(n as int, 0x1_0000_0000int, c as int, self.channels as int);
            lemma_le_mul(self.batch as int, 0x1_0000_0000int, self.channels as int);
        }
        let o1: u128 = n as u128 * self.channels as u128 + c as u128;
        proof {
            lemma_row_major_step(o1 as int, 0x1_0000_0000_0000_0000int, h as int, self.height as int);
            lemma_le_mul(0x1_0000_0000_0000_0000int, 0x1_0000_0000_0000_0000int, self.height as int);
        }
        let o2: u128 = o1 * self.height as u128 + h as u128;
        proof {
            lemma_row_major_step(
                o2 as int,
                0x1_0000_0000_0000_0000_0000_0000int,
                w as int,
                self.width as int,
            );
        }
        let off: u128 = o2 * self.width as u128 + w as u128;
        assert(off == offset_spec(
            self.channels as int,
            self.height as int,
            self.width as int,
            n as int,
            c as int,
            h as int,
            w as int,
        ));
        if off >= self.data.len() as u128 {
            return Err(Error::IndexOutOfRange);
        }
        Ok(self.data[off as usize])
    }
}

/// Stepping through a row-major index: `x < X` and `y < Y` give `x * Y + y < X * Y`.
proof fn lemma_row_major_step(x: int, xs: int, y: int, ys: int)
    requires
        0 <= x < xs,
        0 <= y < ys,
    ensures
        0 <= x * ys + y < xs * ys,
{
    assert(0 <= x * ys + y < xs * ys) by (nonlinear_arith)
        requires
            0 <= x < xs,
            0 <= y < ys,
    ;
}

proof fn lemma_le_mul(a: int, b: int, c: int)
    requires
        a <= b,
        c >= 0,
    ensures
        a * c <= b * c,
{
    assert(a * c <= b * c) by (nonlinear_arith)
        requires
            a <= b,
            c >= 0,
    ;
}

} // verus!
