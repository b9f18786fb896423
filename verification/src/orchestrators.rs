//! Boot flows.
pub mod simple_boot_manager;
pub mod sre_boot_manager;

pub use simple_boot_manager::SimpleBootManager;
pub use sre_boot_manager::SreBootManager;
