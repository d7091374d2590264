//! Lazily evaluated ranges over integers and chars, built by chained calls,
//! with optional inclusive or exclusive bounds, negative steps, and no
//! wraparound at the edges of a domain.

pub mod domain;
pub mod range;
pub mod stepped;

pub use domain::{First, Next, Step};
pub use range::{from, range, to, until, Range, RangeState};
pub use stepped::{step, RangeStep, StepState};
