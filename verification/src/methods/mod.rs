//! Method-argument machinery: typed argument lists and the per-method
//! argument schemas that drive the method codec.

pub mod args;
