//! The boot flow interface.
use vstd::prelude::*;

use crate::boot_storage::BootStorageService;
use crate::error::EfiError;
use crate::firmware;
use crate::firmware::{BootServices, DxeDispatch, Exchange, Firmware, Handle, RuntimeServices};

verus! {

/// A boot flow. [`BootDispatcher`](crate::BootDispatcher) runs it when the BDS phase begins.
///
/// [`SimpleBootManager`](crate::SimpleBootManager) suits platforms with a simple boot topology. A
/// platform with another boot flow implements this trait.
pub trait BootOrchestrator<
    B: BootServices,
    R: RuntimeServices,
    D: DxeDispatch,
    S: BootStorageService,
>: Send + Sync {
    /// What one run of the boot flow may ask of the firmware, and the failure that it ends with.
    /// `with_storage` says whether a storage service is there. Anything, unless the boot flow says
    /// more.
    open spec fn executed(
        &self,
        with_storage: bool,
        image_handle: Handle,
        exchanges: Seq<Exchange>,
        failure: EfiError,
    ) -> bool {
        true
    }

    /// Runs the boot flow: enumerates devices, signals the phases of the boot, and tries to boot.
    ///
    /// A boot that succeeds hands control to the boot image and does not return. What is returned
    /// is the reason why every boot option failed.
    ///
    /// Every call to a service is made through `firmware`, so that the record accounts for all that
    /// was asked of the services.
    fn execute(
        &self,
        firmware: &mut Firmware<B>,
        runtime_services: &mut R,
        dxe_dispatch: &mut D,
        boot_storage: &mut Option<S>,
        image_handle: Handle,
    ) -> (failure: EfiError)
        ensures
            final(firmware).follows(*old(firmware)),
            self.executed(
                *old(boot_storage) is Some,
                image_handle,
                final(firmware).since(*old(firmware)),
                failure,
            ),
            final(runtime_services).written() == old(runtime_services).written()
                + firmware::writes(final(firmware).since(*old(firmware))),
            final(dxe_dispatch).dispatched() == old(dxe_dispatch).dispatched()
                + firmware::dispatches(final(firmware).since(*old(firmware))),
            *final(boot_storage) is Some <==> *old(boot_storage) is Some,
            firmware::locked_by(*final(boot_storage)) == firmware::locked_by(*old(boot_storage))
                + firmware::locks(final(firmware).since(*old(firmware))),
    ;
}

} // verus!
