//! Boot orchestration for UEFI firmware: the boot manager and the flows of the BDS phase.
//!
//! - [`BootOrchestrator`] is the interface of a boot flow. [`SimpleBootManager`] and
//!   [`SreBootManager`] are flows; a platform may bring its own.
//! - [`BootDispatcher`] installs the BDS architectural protocol, and runs a flow once the BDS phase
//!   begins.
//! - [`config::BootConfig`] says what to boot from.
//! - [`helpers`] and [`partition`] hold the steps that flows are made of.
//!
//! Flows reach the firmware through [`firmware::Firmware`], which keeps a record of every call for
//! proofs. Contracts say which calls are made, in which order, with which arguments, and what comes
//! of each reply.

pub mod boot_dispatcher;
pub mod boot_orchestrator;
pub mod boot_storage;
pub mod component;
pub mod config;
pub mod connect_controller;
pub mod device_path;
pub mod error;
pub mod firmware;
pub mod guid;
pub mod helpers;
pub mod laws;
pub mod orchestrators;
pub mod partition;
pub mod ram_disk;
pub mod strategies;

pub use boot_dispatcher::BootDispatcher;
pub use boot_orchestrator::BootOrchestrator;
pub use connect_controller::ConnectController;
pub use orchestrators::{SimpleBootManager, SreBootManager};
pub use strategies::ConnectAllStrategy;
