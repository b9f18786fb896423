//! The component that sets up consoles.
use vstd::prelude::*;

use crate::error::EfiError;
use crate::firmware;
use crate::firmware::{BootServices, Firmware, RuntimeServices};
use crate::helpers::console;

verus! {

/// Discovers console devices, and writes the `ConIn`, `ConOut` and `ErrOut` variables.
///
/// The controllers of the consoles have to be connected before it runs.
#[derive(Clone, Copy, Debug)]
pub struct ConsoleDiscovery;

impl ConsoleDiscovery {
    /// Runs the component.
    pub fn entry_point<B: BootServices, R: RuntimeServices>(
        self,
        firmware: &mut Firmware<B>,
        runtime_services: &mut R,
    ) -> (outcome: Result<(), EfiError>)
        ensures
            final(firmware).follows(*old(firmware)),
            console::discovers_consoles(final(firmware).since(*old(firmware))),
            final(runtime_services).written() == old(runtime_services).written()
                + firmware::writes(final(firmware).since(*old(firmware))),
            outcome is Ok,
    {
        console::discover_console_devices(firmware, runtime_services)
    }
}

} // verus!
