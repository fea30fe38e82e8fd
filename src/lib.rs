//! Lossless RGB image compression: a spatial predictor turns pixels into
//! residual bytes, and an adaptive arithmetic coder packs the residuals.

pub mod bits;
pub mod models;
pub mod format;
pub mod coder;
pub mod codec;
