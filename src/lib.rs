//! A millisecond clock driven by a periodic timer tick, and a fixed-window
//! averaging buffer for smoothing sensor samples.

pub mod clock;
pub mod smoothing;
pub mod decimal;
