//! Conversion of conic (rational quadratic) and cubic Bézier segments to quadratic splines.
//!
//! The numeric geometry works on `f32` points; this crate holds the verified parts that
//! decide how that geometry is driven: the conic classification, the binary subdivision
//! that a conic is cut into, the choice of its subdivision level, the search for the
//! number of quadratic segments a cubic needs, and the ring that keeps a batch of
//! cubics in step.
pub mod co2qu;
pub mod cu2qu;
