//! Connection strategies.
pub mod connect_all;

pub use connect_all::ConnectAllStrategy;
