//! Boot flows as components of their own.
pub mod boot_orchestrator;
pub mod console_discovery;

pub use boot_orchestrator::{BootOrchestrator, Conclusion};
pub use console_discovery::ConsoleDiscovery;
