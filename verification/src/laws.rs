//! What the operations of the library are for, stated over node types, bytes, status codes and the
//! calls that firmware sees, and proved from the contracts.
//!
//! Each law takes what a contract says of an operation, and says what follows of its inputs, of the
//! replies that it got and of its result.
pub mod booting;
pub mod consoles;
pub mod device_paths;
pub mod enumeration;
pub mod expansion;
pub mod flows;
pub mod hotkeys;
pub mod identifiers;
pub mod partitions;
pub mod record;
pub mod signals;
