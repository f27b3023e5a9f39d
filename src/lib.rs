//! Post-processing of quantized object-detection outputs: dequantization,
//! anchor-grid decoding, confidence filtering and class-aware non-maximum
//! suppression. Every real quantity is carried as an exact fraction.
pub mod error;
pub mod geometry;
pub mod quant;
pub mod tensor;
pub mod nms;
pub mod decode;
pub mod pipeline;
