//! Publishes live metrics through a memory-mapped file in the MMV layout.
//!
//! [`layout`] sizes the file, [`mmv::MMV`] writes it into a [`region::Mapping`]
//! and hands each [`metric::Metric`] the 8-byte value slot of its value block,
//! through which [`metric::Metric::set_val`] later updates it in place.

pub mod layout;
pub mod region;
pub mod error;
pub mod metric;
pub mod image;
pub mod mmv;

pub use error::MmvError;
pub use layout::Layout;
pub use metric::{Metric, MetricSem, MetricType, ValueSlot};
pub use mmv::{MMVFlags, MMV};
pub use region::Mapping;
