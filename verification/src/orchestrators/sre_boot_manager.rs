//! The boot flow of platforms with a System Recovery Environment beside the main OS.
//!
//! This is the normal boot path: the recovery environment itself is not booted.
use vstd::prelude::*;

use crate::boot_orchestrator::BootOrchestrator;
use crate::boot_storage::BootStorageService;
use crate::device_path::node::NodeView;
use crate::device_path::DevicePathBuf;
use crate::error::EfiError;
use crate::firmware;
use crate::firmware::{BootServices, DxeDispatch, Exchange, Firmware, Handle, RuntimeServices};
use crate::guid;
use crate::helpers::{boot, console, events, interleave};
use crate::strategies::connect_all;
use crate::strategies::ConnectAllStrategy;

verus! {

/// Where the phases of the normal boot path end, as numbers of exchanges.
pub struct SrePhases {
    /// Controllers are connected, and drivers dispatched.
    pub enumeration: int,
    /// EndOfDxe is signalled.
    pub lockdown: int,
    /// Consoles are discovered.
    pub consoles: int,
    /// The boot partition is locked.
    pub storage: int,
    /// ReadyToBoot is signalled.
    pub ready: int,
}

/// The exchanges connect all controllers and dispatch drivers in turn, with some outcome.
pub open spec fn enumerates_and_dispatches<B: BootServices>(exchanges: Seq<Exchange>) -> bool {
    exists|outcome: Result<(), EfiError>|
        interleave::interleaves::<B, ConnectAllStrategy>(
            ConnectAllStrategy,
            interleave::MAX_ROUNDS as nat,
            exchanges,
            outcome,
        )
}

/// The exchanges lock the boot partition, where a storage service is there to do so.
pub open spec fn locks_storage(with_storage: bool, exchanges: Seq<Exchange>) -> bool {
    if with_storage {
        exchanges.len() == 1 && exchanges[0] is LockBootPartition
    } else {
        exchanges.len() == 0
    }
}

/// The exchanges are the normal boot path. Each phase follows the one before, whatever came of it.
pub open spec fn boots_normally<B: BootServices>(
    main_os: Seq<NodeView>,
    with_storage: bool,
    image_handle: Handle,
    exchanges: Seq<Exchange>,
    phases: SrePhases,
) -> bool {
    &&& 0 <= phases.enumeration <= phases.lockdown <= phases.consoles <= phases.storage
        <= phases.ready <= exchanges.len()
    &&& enumerates_and_dispatches::<B>(exchanges.take(phases.enumeration))
    &&& events::signals(
        guid::spec_end_of_dxe_guid(),
        exchanges.subrange(phases.enumeration, phases.lockdown),
    )
    &&& console::discovers_consoles(exchanges.subrange(phases.lockdown, phases.consoles))
    &&& locks_storage(with_storage, exchanges.subrange(phases.consoles, phases.storage))
    &&& events::signals(
        guid::spec_ready_to_boot_guid(),
        exchanges.subrange(phases.storage, phases.ready),
    )
    &&& boot::attempts(
        image_handle,
        main_os,
        exchanges,
        phases.ready,
        exchanges.len() as int,
    )
}

/// Boots the main OS of a platform that has a System Recovery Environment beside it.
///
/// 1. Connect all controllers, interleaved with driver dispatch
/// 2. Signal EndOfDxe, at which the system is locked down
/// 3. Discover console devices
/// 4. Write-protect the boot partition, where a storage service is there
/// 5. Signal ReadyToBoot
/// 6. Boot the main OS
///
/// A step that fails does not keep the next from being taken.
#[derive(Debug)]
pub struct SreBootManager {
    main_os_path: DevicePathBuf,
}

impl SreBootManager {
    /// The device path of the main OS.
    pub closed spec fn main_os(self) -> Seq<NodeView> {
        self.main_os_path@
    }

    /// A boot flow that boots the main OS from a device path.
    pub fn new(main_os_path: DevicePathBuf) -> (manager: Self)
        ensures
            manager.main_os() == main_os_path@,
    {
        SreBootManager { main_os_path }
    }
}

impl<
    B: BootServices,
    R: RuntimeServices,
    D: DxeDispatch,
    S: BootStorageService,
> BootOrchestrator<B, R, D, S> for SreBootManager {
    open spec fn executed(
        &self,
        with_storage: bool,
        image_handle: Handle,
        exchanges: Seq<Exchange>,
        failure: EfiError,
    ) -> bool {
        &&& failure == EfiError::NotFound
        &&& exists|phases: SrePhases|
            boots_normally::<B>(self.main_os(), with_storage, image_handle, exchanges, phases)
    }

    #[verifier::spinoff_prover]
    #[verifier::rlimit(40)]
    fn execute(
        &self,
        firmware: &mut Firmware<B>,
        runtime_services: &mut R,
        dxe_dispatch: &mut D,
        boot_storage: &mut Option<S>,
        image_handle: Handle,
    ) -> (failure: EfiError) {
        let ghost start = *firmware;
        let ghost with_storage = *boot_storage is Some;
        let connected = interleave::interleave_connect_and_dispatch(
            &ConnectAllStrategy,
            firmware,
            dxe_dispatch,
        );
        let ghost enumeration = *firmware;
        let locked_down = events::signal_bds_phase_entry(firmware);
        let ghost lockdown = *firmware;
        let _ = console::discover_console_devices(firmware, runtime_services);
        let ghost consoles = *firmware;
        if let Some(boot_storage) = boot_storage {
            let _ = firmware.lock_boot_partition(boot_storage);
        }
        proof {
            lemma_locks_of_storage(with_storage, firmware.since(consoles));
            assert(firmware::locked_by(*boot_storage) =~= firmware::locked_by(*old(boot_storage))
                + firmware::locks(firmware.since(consoles)));
        }
        let ghost storage = *firmware;
        let signalled = events::signal_ready_to_boot(firmware);
        let ghost ready = *firmware;
        let booted = boot::boot_from_device_path(firmware, image_handle, &self.main_os_path);
        proof {
            firmware::lemma_since_transitive(storage, ready, *firmware);
            firmware::lemma_since_transitive(consoles, storage, *firmware);
            firmware::lemma_since_transitive(lockdown, consoles, *firmware);
            firmware::lemma_since_transitive(enumeration, lockdown, *firmware);
            firmware::lemma_since_between(start, start, enumeration, *firmware);
            firmware::lemma_since_between(start, enumeration, lockdown, *firmware);
            firmware::lemma_since_transitive(start, enumeration, lockdown);
            firmware::lemma_since_between(start, lockdown, consoles, *firmware);
            firmware::lemma_since_transitive(start, lockdown, consoles);
            firmware::lemma_since_between(start, consoles, storage, *firmware);
            firmware::lemma_since_transitive(start, consoles, storage);
            firmware::lemma_since_between(start, storage, ready, *firmware);
            firmware::lemma_since_transitive(start, storage, ready);
            firmware::lemma_since_between(start, ready, *firmware, *firmware);
            let exchanges = firmware.since(start);
            let phases = SrePhases {
                enumeration: enumeration.since(start).len() as int,
                lockdown: lockdown.since(start).len() as int,
                consoles: consoles.since(start).len() as int,
                storage: storage.since(start).len() as int,
                ready: ready.since(start).len() as int,
            };
            assert(exchanges.take(phases.enumeration) =~= enumeration.since(start));
            assert(interleave::interleaves::<B, ConnectAllStrategy>(
                ConnectAllStrategy,
                interleave::MAX_ROUNDS as nat,
                enumeration.since(start),
                connected,
            ));
            assert(events::signals_group(
                guid::spec_end_of_dxe_guid(),
                lockdown.since(enumeration),
                locked_down,
            ));
            assert(events::signals_group(
                guid::spec_ready_to_boot_guid(),
                ready.since(storage),
                signalled,
            ));
            assert(boot::boots(image_handle, self.main_os(), firmware.since(ready), booted));
            assert(boots_normally::<B>(
                self.main_os(),
                with_storage,
                image_handle,
                exchanges,
                phases,
            ));
            lemma_parts_of_phases::<B>(
                self.main_os(),
                with_storage,
                image_handle,
                exchanges,
                phases,
            );
        }
        EfiError::NotFound
    }
}

/// What each phase of the normal boot path asks of the firmware.
pub proof fn lemma_kinds_of_calls<B: BootServices>(
    main_os: Seq<NodeView>,
    with_storage: bool,
    image_handle: Handle,
    exchanges: Seq<Exchange>,
    phases: SrePhases,
    i: int,
)
    requires
        boots_normally::<B>(main_os, with_storage, image_handle, exchanges, phases),
        0 <= i < exchanges.len(),
    ensures
        exchanges[i] is Dispatch ==> i < phases.enumeration,
        exchanges[i] is SetVariable ==> phases.lockdown <= i < phases.consoles,
        exchanges[i] is LockBootPartition ==> phases.consoles <= i < phases.storage,
        exchanges[i] is LoadImage || exchanges[i] is StartImage ==> phases.ready <= i,
{
    if i < phases.enumeration {
        let part = exchanges.take(phases.enumeration);
        let outcome = choose|outcome: Result<(), EfiError>|
            interleave::interleaves::<B, ConnectAllStrategy>(
                ConnectAllStrategy,
                interleave::MAX_ROUNDS as nat,
                part,
                outcome,
            );
        connect_all::connect_all_only_enumerates::<B>(ConnectAllStrategy);
        interleave::lemma_kinds_of_interleaving::<B, ConnectAllStrategy>(
            ConnectAllStrategy,
            interleave::MAX_ROUNDS as nat,
            part,
            outcome,
            i,
        );
    } else if i < phases.lockdown {
        let part = exchanges.subrange(phases.enumeration, phases.lockdown);
        assert(part[i - phases.enumeration] == exchanges[i]);
    } else if i < phases.consoles {
        let part = exchanges.subrange(phases.lockdown, phases.consoles);
        console::lemma_discovery_only_concerns_consoles(part, i - phases.lockdown);
    } else if i < phases.storage {
        let part = exchanges.subrange(phases.consoles, phases.storage);
        assert(part[i - phases.consoles] == exchanges[i]);
    } else if i < phases.ready {
        let part = exchanges.subrange(phases.storage, phases.ready);
        assert(part[i - phases.storage] == exchanges[i]);
    } else {
        boot::lemma_attempt_only_concerns_boot(
            image_handle,
            main_os,
            exchanges,
            phases.ready,
            exchanges.len() as int,
            i,
        );
    }
}

/// The lock is all that the storage service is asked for.
proof fn lemma_locks_of_storage(with_storage: bool, exchanges: Seq<Exchange>)
    requires
        locks_storage(with_storage, exchanges),
    ensures
        firmware::locks(exchanges) == exchanges,
{
    let none = Seq::<Exchange>::empty();
    firmware::lemma_parts_empty(none);
    if with_storage {
        assert(exchanges =~= none.push(exchanges[0]));
        firmware::lemma_filter_push(none, exchanges[0]);
    } else {
        assert(exchanges =~= none);
    }
}

/// Drivers are dispatched, variables written and the partition locked in one phase each.
proof fn lemma_parts_of_phases<B: BootServices>(
    main_os: Seq<NodeView>,
    with_storage: bool,
    image_handle: Handle,
    exchanges: Seq<Exchange>,
    phases: SrePhases,
)
    requires
        boots_normally::<B>(main_os, with_storage, image_handle, exchanges, phases),
    ensures
        firmware::dispatches(exchanges) == firmware::dispatches(
            exchanges.take(phases.enumeration),
        ),
        firmware::writes(exchanges) == firmware::writes(
            exchanges.subrange(phases.lockdown, phases.consoles),
        ),
        firmware::locks(exchanges) == exchanges.subrange(phases.consoles, phases.storage),
{
    assert forall|i: int| 0 <= i < exchanges.len() implies ({
        let exchange = #[trigger] exchanges[i];
        &&& exchange is Dispatch ==> i < phases.enumeration
        &&& exchange is SetVariable ==> phases.lockdown <= i < phases.consoles
        &&& exchange is LockBootPartition ==> phases.consoles <= i < phases.storage
    }) by {
        lemma_kinds_of_calls::<B>(main_os, with_storage, image_handle, exchanges, phases, i);
    }
    firmware::lemma_parts_within(exchanges, 0, phases.enumeration);
    firmware::lemma_parts_within(exchanges, phases.lockdown, phases.consoles);
    firmware::lemma_parts_within(exchanges, phases.consoles, phases.storage);
    lemma_locks_of_storage(with_storage, exchanges.subrange(phases.consoles, phases.storage));
}

/// The boot partition is locked exactly once where a storage service is there, and never where none
/// is. The lock comes behind EndOfDxe and ahead of ReadyToBoot.
pub proof fn partition_is_locked_once<B: BootServices>(
    main_os: Seq<NodeView>,
    with_storage: bool,
    image_handle: Handle,
    exchanges: Seq<Exchange>,
    phases: SrePhases,
    locked: int,
)
    requires
        boots_normally::<B>(main_os, with_storage, image_handle, exchanges, phases),
        0 <= locked < exchanges.len(),
    ensures
        exchanges[locked] is LockBootPartition <==> with_storage && locked == phases.consoles,
        firmware::locks(exchanges).len() == if with_storage {
            1int
        } else {
            0
        },
        phases.enumeration < phases.consoles <= phases.storage < exchanges.len(),
        exchanges[phases.enumeration] matches Exchange::CreateEvent { group, .. } && group
            == guid::spec_end_of_dxe_guid(),
        exchanges[phases.storage] matches Exchange::CreateEvent { group, .. } && group
            == guid::spec_ready_to_boot_guid(),
{
    lemma_kinds_of_calls::<B>(main_os, with_storage, image_handle, exchanges, phases, locked);
    lemma_parts_of_phases::<B>(main_os, with_storage, image_handle, exchanges, phases);
    let end_of_dxe = exchanges.subrange(phases.enumeration, phases.lockdown);
    let lock = exchanges.subrange(phases.consoles, phases.storage);
    let ready_to_boot = exchanges.subrange(phases.storage, phases.ready);
    assert(end_of_dxe[0] == exchanges[phases.enumeration]);
    assert(ready_to_boot[0] == exchanges[phases.storage]);
    if with_storage {
        assert(lock[0] == exchanges[phases.consoles]);
    }
}

/// No image is loaded before the system is locked down, the boot partition write-protected, where
/// a storage service is there, and drivers told that boot is imminent.
pub proof fn images_are_loaded_after_lock<B: BootServices>(
    main_os: Seq<NodeView>,
    with_storage: bool,
    image_handle: Handle,
    exchanges: Seq<Exchange>,
    phases: SrePhases,
    loaded: int,
)
    requires
        boots_normally::<B>(main_os, with_storage, image_handle, exchanges, phases),
        0 <= loaded < exchanges.len(),
        exchanges[loaded] is LoadImage,
    ensures
        phases.enumeration < phases.consoles <= phases.storage < loaded,
        exchanges[phases.enumeration] matches Exchange::CreateEvent { group, .. } && group
            == guid::spec_end_of_dxe_guid(),
        with_storage ==> exchanges[phases.consoles] is LockBootPartition,
        exchanges[phases.storage] matches Exchange::CreateEvent { group, .. } && group
            == guid::spec_ready_to_boot_guid(),
{
    lemma_kinds_of_calls::<B>(main_os, with_storage, image_handle, exchanges, phases, loaded);
    partition_is_locked_once::<B>(
        main_os,
        with_storage,
        image_handle,
        exchanges,
        phases,
        phases.consoles,
    );
}

} // verus!
