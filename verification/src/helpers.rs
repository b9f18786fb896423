//! Building blocks of boot flows.
pub mod boot;
pub mod connect;
pub mod console;
pub mod events;
pub mod expand;
pub mod hotkey;
pub mod interleave;

pub use boot::{boot_from_device_path, boot_from_each};
pub use connect::connect_all;
pub use console::{build_multi_instance_device_path, discover_console_devices};
pub use events::{signal_bds_phase_entry, signal_ready_to_boot};
pub use expand::{expand_device_path, is_partial_device_path};
pub use hotkey::{check_hotkey, detect_hotkey, detect_hotkey_from_handles, keeps_reading};
pub use interleave::interleave_connect_and_dispatch;
