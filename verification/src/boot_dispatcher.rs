//! The hook of boot flows into the BDS phase.
use vstd::prelude::*;

use crate::boot_orchestrator::BootOrchestrator;
use crate::boot_storage::BootStorageService;
use crate::error;
use crate::error::EfiError;
use crate::firmware;
use crate::firmware::{
    BootServices, DxeDispatch, Exchange, Firmware, Handle, Interface, RuntimeServices,
};
use crate::guid;
use crate::guid::Guid;

verus! {

/// The services that a boot flow runs on.
pub struct BdsServices<B, R, D, S> {
    pub firmware: Firmware<B>,
    pub runtime_services: R,
    pub dxe_dispatch: D,
    pub boot_storage: Option<S>,
}

/// What the BDS entry point needs of the dispatcher that installed it.
pub struct BdsContext<O, B, R, D, S> {
    /// The boot flow to run.
    pub orchestrator: O,
    /// What to run it on.
    pub services: BdsServices<B, R, D, S>,
    /// The image that boot images are loaded on behalf of.
    pub image_handle: Handle,
}

/// The context that is kept once another is offered: the one that was kept before, if any, and the
/// offered one if not.
pub open spec fn kept_after<T>(kept: Option<T>, offered: Option<T>) -> Option<T> {
    if kept is Some {
        kept
    } else {
        offered
    }
}

/// The context that is kept once others are offered one after the other.
pub open spec fn kept_in_turn<T>(kept: Option<T>, offered: Seq<Option<T>>) -> Option<T>
    decreases offered.len(),
{
    if offered.len() == 0 {
        kept
    } else {
        kept_after(kept_in_turn(kept, offered.drop_last()), offered.last())
    }
}

/// Over any number of offers, the first context that is offered is the one that is kept: none that
/// is offered later replaces it.
pub proof fn first_context_is_kept<T>(offered: Seq<Option<T>>, first: int)
    requires
        0 <= first < offered.len(),
        offered[first] is Some,
        forall|i: int| 0 <= i < first ==> (#[trigger] offered[i]) is None,
    ensures
        kept_in_turn(None, offered) == offered[first],
    decreases offered.len(),
{
    let before = offered.drop_last();
    if first < offered.len() - 1 {
        first_context_is_kept(before, first);
    } else {
        no_context_is_kept(before);
    }
}

/// No context is kept where none is offered, over any number of dispatchers without an image.
pub proof fn no_context_is_kept<T>(offered: Seq<Option<T>>)
    requires
        forall|i: int| 0 <= i < offered.len() ==> (#[trigger] offered[i]) is None,
    ensures
        kept_in_turn(None, offered) is None,
    decreases offered.len(),
{
    if offered.len() > 0 {
        no_context_is_kept(offered.drop_last());
    }
}

/// A context that is kept, whether or not the BDS phase has begun with it, stays over any number of
/// offers.
pub proof fn kept_context_stays<T>(kept: Option<T>, offered: Seq<Option<T>>)
    requires
        kept is Some,
    ensures
        kept_in_turn(kept, offered) == kept,
    decreases offered.len(),
{
    if offered.len() > 0 {
        kept_context_stays(kept, offered.drop_last());
    }
}

/// Why the BDS phase ended. It does not end while a boot image has control.
#[derive(Debug)]
pub enum BdsFailure {
    /// The entry point was called although no dispatcher had installed it.
    NotInitialized,
    /// Every boot option of the boot flow failed.
    BootFailed(EfiError),
}

/// Installs the BDS architectural protocol, and runs a boot flow once the BDS phase begins.
pub struct BootDispatcher<O> {
    orchestrator: O,
}

impl<O> BootDispatcher<O> {
    /// The boot flow.
    pub closed spec fn flow(self) -> O {
        self.orchestrator
    }

    /// A dispatcher of a boot flow.
    pub fn new(orchestrator: O) -> (dispatcher: Self)
        ensures
            dispatcher.flow() == orchestrator,
    {
        BootDispatcher { orchestrator }
    }

    /// The context that the dispatcher offers for the BDS phase. None without an image to load boot
    /// images on behalf of.
    pub open spec fn offer<B, R, D, S>(
        self,
        services: BdsServices<B, R, D, S>,
        image_handle: Option<Handle>,
    ) -> Option<BdsContext<O, B, R, D, S>> {
        match image_handle {
            Some(image_handle) => Some(
                BdsContext { orchestrator: self.flow(), services, image_handle },
            ),
            None => None,
        }
    }

    /// Keeps the boot flow and the services for later in `context`, and installs the BDS
    /// architectural protocol with the interface `protocol`. The boot flow itself does not run yet.
    ///
    /// A context that was kept before stays: the first dispatcher wins. Fails with
    /// `InvalidParameter`, and does nothing, without an image to load boot images on behalf of.
    pub fn entry_point<B: BootServices, R, D, S>(
        self,
        firmware: &mut Firmware<B>,
        services: BdsServices<B, R, D, S>,
        context: &mut Option<BdsContext<O, B, R, D, S>>,
        protocol: Interface,
        image_handle: Option<Handle>,
    ) -> (outcome: Result<(), EfiError>)
        ensures
            final(firmware).follows(*old(firmware)),
            *final(context) == kept_after(*old(context), self.offer(services, image_handle)),
            match image_handle {
                None => {
                    &&& outcome == Err::<(), EfiError>(EfiError::InvalidParameter)
                    &&& final(firmware).since(*old(firmware)).len() == 0
                },
                Some(_) => installs_bds(
                    protocol,
                    final(firmware).since(*old(firmware)),
                    outcome,
                ),
            },
    {
        let image_handle = match image_handle {
            Some(image_handle) => image_handle,
            None => {
                return Err(EfiError::InvalidParameter);
            },
        };
        if context.is_none() {
            *context = Some(BdsContext { orchestrator: self.orchestrator, services, image_handle });
        }
        match firmware.install_protocol_interface(None, Guid::bds(), protocol) {
            Ok(_) => Ok(()),
            Err(status) => Err(EfiError::from_status(status)),
        }
    }
}

/// The exchanges install the BDS architectural protocol on a new handle, with that outcome.
pub open spec fn installs_bds(
    bds_protocol: Interface,
    exchanges: Seq<Exchange>,
    outcome: Result<(), EfiError>,
) -> bool {
    &&& exchanges.len() == 1
    &&& exchanges[0] matches Exchange::InstallProtocol { handle, protocol, interface, reply }
    &&& handle is None
    &&& protocol == guid::spec_bds_guid()
    &&& interface == bds_protocol
    &&& outcome == match reply {
        Ok(_) => Ok::<(), EfiError>(()),
        Err(status) => Err(error::error_of(status)),
    }
}

/// The run of the boot flow of a context, from the services `before` to the services `after`, with
/// that failure. What was asked of each of the services is what the record says.
pub open spec fn ran<
    B: BootServices,
    R: RuntimeServices,
    D: DxeDispatch,
    S: BootStorageService,
    O: BootOrchestrator<B, R, D, S>,
>(
    orchestrator: O,
    image_handle: Handle,
    before: BdsServices<B, R, D, S>,
    after: BdsServices<B, R, D, S>,
    failure: EfiError,
) -> bool {
    let exchanges = after.firmware.since(before.firmware);
    &&& after.firmware.follows(before.firmware)
    &&& orchestrator.executed(before.boot_storage is Some, image_handle, exchanges, failure)
    &&& after.runtime_services.written() == before.runtime_services.written() + firmware::writes(
        exchanges,
    )
    &&& after.dxe_dispatch.dispatched() == before.dxe_dispatch.dispatched()
        + firmware::dispatches(exchanges)
    &&& firmware::locked_by(after.boot_storage) == firmware::locked_by(before.boot_storage)
        + firmware::locks(exchanges)
}

/// Runs the boot flow that a dispatcher kept. Called when the BDS phase begins.
///
/// Returns only where the boot flow could not boot, with the reason; the caller cannot go on then.
/// The context is kept: were the BDS phase to begin again, the same boot flow would run again.
pub fn bds_entry_point<
    B: BootServices,
    R: RuntimeServices,
    D: DxeDispatch,
    S: BootStorageService,
    O: BootOrchestrator<B, R, D, S>,
>(context: &mut Option<BdsContext<O, B, R, D, S>>) -> (failure: BdsFailure)
    ensures
        match (*old(context), *final(context)) {
            (None, after) => failure is NotInitialized && after is None,
            (Some(before), Some(after)) => {
                &&& failure matches BdsFailure::BootFailed(failure)
                &&& after.orchestrator == before.orchestrator
                &&& after.image_handle == before.image_handle
                &&& ran(
                    before.orchestrator,
                    before.image_handle,
                    before.services,
                    after.services,
                    failure,
                )
            },
            (Some(_), None) => false,
        },
{
    match context.take() {
        None => BdsFailure::NotInitialized,
        Some(kept) => {
            let BdsContext { orchestrator, services, image_handle } = kept;
            let BdsServices { firmware, runtime_services, dxe_dispatch, boot_storage } = services;
            let mut firmware = firmware;
            let mut runtime_services = runtime_services;
            let mut dxe_dispatch = dxe_dispatch;
            let mut boot_storage = boot_storage;
            let failure = orchestrator.execute(
                &mut firmware,
                &mut runtime_services,
                &mut dxe_dispatch,
                &mut boot_storage,
                image_handle,
            );
            let services = BdsServices { firmware, runtime_services, dxe_dispatch, boot_storage };
            *context = Some(BdsContext { orchestrator, services, image_handle });
            BdsFailure::BootFailed(failure)
        },
    }
}

} // verus!
