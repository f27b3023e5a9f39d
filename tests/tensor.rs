use rknpu2_rs::error::Error;
use rknpu2_rs::tensor::{shape_prefix, QuantKind, TensorView};

#[test]
fn view_reads_row_major() {
    let data: Vec<i8> = (0..24).map(|v| v as i8).collect();
    let v = TensorView::new(&data, &[1, 2, 3, 4]).unwrap();
    assert_eq!(v.get(0, 0, 0, 0), Ok(0));
    assert_eq!(v.get(0, 1, 2, 3), Ok(23));
    assert_eq!(v.get(0, 1, 0, 2), Ok(14));
}

#[test]
fn view_pads_missing_leading_dims() {
    let data: Vec<i8> = (0..6).map(|v| v as i8).collect();
    let v = TensorView::new(&data, &[2, 3]).unwrap();
    assert_eq!((v.batch, v.channels, v.height, v.width), (1, 1, 2, 3));
    assert_eq!(v.get(0, 0, 1, 1), Ok(4));
}

#[test]
fn view_rejects_coordinates_out_of_range() {
    let data: Vec<i8> = vec![0; 24];
    let v = TensorView::new(&data, &[1, 2, 3, 4]).unwrap();
    assert_eq!(v.get(1, 0, 0, 0), Err(Error::IndexOutOfRange));
    assert_eq!(v.get(0, 2, 0, 0), Err(Error::IndexOutOfRange));
    assert_eq!(v.get(0, 0, 3, 0), Err(Error::IndexOutOfRange));
    assert_eq!(v.get(0, 0, 0, 4), Err(Error::IndexOutOfRange));
}

#[test]
fn view_rejects_short_buffer() {
    let data: Vec<i8> = vec![5; 10];
    let v = TensorView::new(&data, &[1, 2, 3, 4]).unwrap();
    assert_eq!(v.get(0, 0, 2, 1), Ok(5));
    assert_eq!(v.get(0, 0, 2, 2), Err(Error::IndexOutOfRange));
}

#[test]
fn view_with_huge_dims() {
    let data: Vec<i8> = vec![1; 4];
    let v = TensorView::new(&data, &[u32::MAX, u32::MAX, u32::MAX, u32::MAX]).unwrap();
    assert_eq!(v.get(0, 0, 0, 3), Ok(1));
    assert_eq!(v.get(u32::MAX - 1, u32::MAX - 1, u32::MAX - 1, u32::MAX - 1), Err(Error::IndexOutOfRange));
}

#[test]
fn view_rejects_five_dims() {
    let data: Vec<i8> = vec![0; 4];
    assert!(matches!(TensorView::new(&data, &[1, 1, 1, 2, 2]), Err(Error::IndexOutOfRange)));
}

#[test]
fn quant_kind_codes() {
    assert_eq!(QuantKind::from_code(0), Ok(QuantKind::Unquantized));
    assert_eq!(QuantKind::from_code(1), Ok(QuantKind::SymmetricDfp));
    assert_eq!(QuantKind::from_code(2), Ok(QuantKind::AffineAsymmetric));
    assert_eq!(QuantKind::from_code(3), Err(Error::UnsupportedQuantType));
    assert!(!QuantKind::Unquantized.is_quantized());
    assert!(QuantKind::AffineAsymmetric.is_quantized());
}

#[test]
fn shape_prefix_takes_leading_dims() {
    let dims = [1u32, 640, 640, 3, 0, 0];
    assert_eq!(shape_prefix(&dims, 4), Ok(vec![1, 640, 640, 3]));
    assert_eq!(shape_prefix(&dims, 0), Ok(vec![]));
    assert_eq!(shape_prefix(&dims, 7), Err(Error::IndexOutOfRange));
}
