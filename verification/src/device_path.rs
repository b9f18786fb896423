//! Device paths: sequences of typed nodes that lead from the system root to a device.
pub mod node;
pub mod path;

pub use node::{DevicePathNode, HardDrive};
pub use path::DevicePathBuf;
