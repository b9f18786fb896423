//! Pluggable controller connection strategies.
use vstd::prelude::*;

use crate::error::EfiError;
use crate::firmware;
use crate::firmware::{BootServices, Exchange, Firmware};

verus! {

/// Which controllers to connect during device enumeration.
///
/// [`ConnectAllStrategy`](crate::ConnectAllStrategy) connects all of them. A platform implements
/// this trait to limit what is enumerated, for example to the PCI controllers.
pub trait ConnectController<B: BootServices>: Send + Sync {
    /// What one call of [`connect`](ConnectController::connect) may ask of the firmware, and its
    /// outcome. Anything, unless the strategy says more.
    open spec fn performed(&self, exchanges: Seq<Exchange>, outcome: Result<(), EfiError>) -> bool {
        true
    }

    /// Connects controllers, in one pass of this strategy. Nothing but boot services is called.
    ///
    /// [`interleave_connect_and_dispatch`](crate::helpers::interleave_connect_and_dispatch) repeats
    /// the call for as long as drivers are dispatched.
    fn connect(&self, firmware: &mut Firmware<B>) -> (outcome: Result<(), EfiError>)
        ensures
            final(firmware).follows(*old(firmware)),
            firmware::only_boot_services(final(firmware).since(*old(firmware))),
            self.performed(final(firmware).since(*old(firmware)), outcome),
    ;
}

} // verus!
