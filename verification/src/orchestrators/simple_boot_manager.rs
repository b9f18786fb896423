//! The boot flow of platforms with a simple boot topology.
use vstd::prelude::*;

use crate::boot_orchestrator::BootOrchestrator;
use crate::boot_storage::BootStorageService;
use crate::config::BootConfig;
use crate::connect_controller::ConnectController;
use crate::error::EfiError;
use crate::firmware;
use crate::firmware::{BootServices, DxeDispatch, Exchange, Firmware, Handle, RuntimeServices};
use crate::guid;
use crate::helpers::{boot, console, events, hotkey, interleave};
use crate::strategies::ConnectAllStrategy;

verus! {

/// Where the phases of the boot flow end, as numbers of exchanges.
pub struct SimplePhases {
    /// Devices are enumerated.
    pub enumeration: int,
    /// EndOfDxe is signalled.
    pub lockdown: int,
    /// Consoles are discovered.
    pub consoles: int,
    /// The hotkey is looked for.
    pub hotkey: int,
    /// ReadyToBoot is signalled.
    pub ready: int,
    /// Every boot option was tried.
    pub options: int,
}

/// The exchanges enumerate devices by the strategy, with some outcome: in one pass, or interleaved
/// with driver dispatch.
pub open spec fn enumerates_by<B: BootServices, C: ConnectController<B>>(
    strategy: C,
    dispatches: bool,
    exchanges: Seq<Exchange>,
) -> bool {
    if dispatches {
        exists|outcome: Result<(), EfiError>|
            interleave::interleaves::<B, C>(
                strategy,
                interleave::MAX_ROUNDS as nat,
                exchanges,
                outcome,
            )
    } else {
        &&& firmware::only_boot_services(exchanges)
        &&& exists|outcome: Result<(), EfiError>| strategy.performed(exchanges, outcome)
    }
}

/// The exchanges are the boot flow. Each phase follows the one before, whatever came of it; the
/// failure handler comes last.
pub open spec fn boots_simply<B: BootServices, C: ConnectController<B>>(
    manager: SimpleBootManager<C>,
    image_handle: Handle,
    exchanges: Seq<Exchange>,
    phases: SimplePhases,
    hotkey_pressed: bool,
) -> bool {
    &&& 0 <= phases.enumeration <= phases.lockdown <= phases.consoles <= phases.hotkey
        <= phases.ready <= phases.options
    &&& exchanges.len() == phases.options + 1
    &&& enumerates_by::<B, C>(
        manager.strategy(),
        manager.dispatches(),
        exchanges.take(phases.enumeration),
    )
    &&& events::signals(
        guid::spec_end_of_dxe_guid(),
        exchanges.subrange(phases.enumeration, phases.lockdown),
    )
    &&& console::discovers_consoles(exchanges.subrange(phases.lockdown, phases.consoles))
    &&& hotkey::checks_hotkey(
        manager.configuration().hotkey_scan_code(),
        exchanges.subrange(phases.consoles, phases.hotkey),
        hotkey_pressed,
    )
    &&& events::signals(
        guid::spec_ready_to_boot_guid(),
        exchanges.subrange(phases.hotkey, phases.ready),
    )
    &&& boot::attempts_each(
        image_handle,
        manager.configuration().selected_paths(hotkey_pressed),
        exchanges.subrange(phases.ready, phases.options),
    )
    &&& exchanges[phases.options] is HandleFailure
}

/// Boots from the devices of a [`BootConfig`].
///
/// 1. Enumerate devices
/// 2. Signal EndOfDxe, at which the system is locked down
/// 3. Discover console devices
/// 4. Look for the hotkey, where one is configured; where it was pressed, the hotkey devices take
///    the place of the boot devices
/// 5. Signal ReadyToBoot
/// 6. Try the devices in order
/// 7. Call the failure handler
///
/// A step that fails does not keep the next from being taken.
pub struct SimpleBootManager<C = ConnectAllStrategy> {
    config: BootConfig,
    connect_strategy: C,
    interleaved: bool,
}

impl<C> SimpleBootManager<C> {
    /// What to boot from.
    pub closed spec fn configuration(self) -> BootConfig {
        self.config
    }

    /// How controllers are connected.
    pub closed spec fn strategy(self) -> C {
        self.connect_strategy
    }

    /// Drivers are dispatched between the passes in which controllers are connected.
    pub closed spec fn dispatches(self) -> bool {
        self.interleaved
    }

    /// A boot flow that connects controllers by a strategy of the platform. Passes of the strategy
    /// are interleaved with driver dispatch.
    pub fn with_connect_strategy(config: BootConfig, strategy: C) -> (manager: Self)
        ensures
            manager.configuration() == config,
            manager.strategy() == strategy,
            manager.dispatches(),
    {
        SimpleBootManager { config, connect_strategy: strategy, interleaved: true }
    }

    /// Enumerates devices. That a controller cannot be connected, or a driver dispatched, is no
    /// reason not to boot.
    fn enumerate_devices<B: BootServices, D: DxeDispatch>(
        &self,
        firmware: &mut Firmware<B>,
        dxe_dispatch: &mut D,
    ) where C: ConnectController<B>
        ensures
            final(firmware).follows(*old(firmware)),
            enumerates_by::<B, C>(
                self.strategy(),
                self.dispatches(),
                final(firmware).since(*old(firmware)),
            ),
            final(dxe_dispatch).dispatched() == old(dxe_dispatch).dispatched()
                + firmware::dispatches(final(firmware).since(*old(firmware))),
    {
        let _ = if self.interleaved {
            interleave::interleave_connect_and_dispatch(
                &self.connect_strategy,
                firmware,
                dxe_dispatch,
            )
        } else {
            let ghost start = *firmware;
            let connected = self.connect_strategy.connect(firmware);
            proof {
                firmware::lemma_only_boot_services(firmware.since(start));
                assert(dxe_dispatch.dispatched() + Seq::<Exchange>::empty()
                    =~= dxe_dispatch.dispatched());
            }
            connected
        };
    }

    /// What to boot from.
    pub fn config(&self) -> (config: &BootConfig)
        ensures
            *config == self.configuration(),
    {
        &self.config
    }
}

impl SimpleBootManager<ConnectAllStrategy> {
    /// A boot flow that connects all controllers.
    pub fn new(config: BootConfig) -> (manager: Self)
        ensures
            manager.configuration() == config,
            manager.strategy() == ConnectAllStrategy,
            !manager.dispatches(),
    {
        SimpleBootManager { config, connect_strategy: ConnectAllStrategy, interleaved: false }
    }
}

impl<
    B: BootServices,
    R: RuntimeServices,
    D: DxeDispatch,
    S: BootStorageService,
    C: ConnectController<B>,
> BootOrchestrator<B, R, D, S> for SimpleBootManager<C> {
    open spec fn executed(
        &self,
        with_storage: bool,
        image_handle: Handle,
        exchanges: Seq<Exchange>,
        failure: EfiError,
    ) -> bool {
        &&& failure == EfiError::NotFound
        &&& self.configuration().failure_handled()
        &&& exists|phases: SimplePhases, hotkey_pressed: bool|
            boots_simply::<B, C>(*self, image_handle, exchanges, phases, hotkey_pressed)
    }

    #[verifier::spinoff_prover]
    #[verifier::rlimit(40)]
    fn execute(
        &self,
        firmware: &mut Firmware<B>,
        runtime_services: &mut R,
        dxe_dispatch: &mut D,
        _boot_storage: &mut Option<S>,
        image_handle: Handle,
    ) -> (failure: EfiError) {
        let ghost start = *firmware;
        self.enumerate_devices(firmware, dxe_dispatch);
        let ghost enumeration = *firmware;
        let locked_down = events::signal_bds_phase_entry(firmware);
        let ghost lockdown = *firmware;
        let _ = console::discover_console_devices(firmware, runtime_services);
        let ghost consoles = *firmware;
        let hotkey_pressed = hotkey::check_hotkey(firmware, self.config.hotkey());
        let ghost checked = *firmware;
        let signalled = events::signal_ready_to_boot(firmware);
        let ghost ready = *firmware;
        boot::boot_from_each(firmware, image_handle, self.config.select_devices(hotkey_pressed));
        let ghost options = *firmware;
        firmware.handle_failure(&self.config);
        proof {
            firmware::lemma_since_transitive(ready, options, *firmware);
            firmware::lemma_since_transitive(checked, ready, *firmware);
            firmware::lemma_since_transitive(consoles, checked, *firmware);
            firmware::lemma_since_transitive(lockdown, consoles, *firmware);
            firmware::lemma_since_transitive(enumeration, lockdown, *firmware);
            firmware::lemma_since_between(start, start, enumeration, *firmware);
            firmware::lemma_since_between(start, enumeration, lockdown, *firmware);
            firmware::lemma_since_transitive(start, enumeration, lockdown);
            firmware::lemma_since_between(start, lockdown, consoles, *firmware);
            firmware::lemma_since_transitive(start, lockdown, consoles);
            firmware::lemma_since_between(start, consoles, checked, *firmware);
            firmware::lemma_since_transitive(start, consoles, checked);
            firmware::lemma_since_between(start, checked, ready, *firmware);
            firmware::lemma_since_transitive(start, checked, ready);
            firmware::lemma_since_between(start, ready, options, *firmware);
            firmware::lemma_since_transitive(start, ready, options);
            firmware::lemma_since_between(start, options, *firmware, *firmware);
            let exchanges = firmware.since(start);
            let phases = SimplePhases {
                enumeration: enumeration.since(start).len() as int,
                lockdown: lockdown.since(start).len() as int,
                consoles: consoles.since(start).len() as int,
                hotkey: checked.since(start).len() as int,
                ready: ready.since(start).len() as int,
                options: options.since(start).len() as int,
            };
            assert(exchanges.take(phases.enumeration) =~= enumeration.since(start));
            assert(events::signals_group(
                guid::spec_end_of_dxe_guid(),
                lockdown.since(enumeration),
                locked_down,
            ));
            assert(events::signals_group(
                guid::spec_ready_to_boot_guid(),
                ready.since(checked),
                signalled,
            ));
            assert(boots_simply::<B, C>(*self, image_handle, exchanges, phases, hotkey_pressed));
            lemma_parts_of_phases::<B, C>(
                *self,
                image_handle,
                exchanges,
                phases,
                hotkey_pressed,
            );
            assert(firmware::locked_by(*_boot_storage) + Seq::<Exchange>::empty()
                =~= firmware::locked_by(*_boot_storage));
        }
        EfiError::NotFound
    }
}

/// What each phase of the boot flow asks of the firmware.
pub proof fn lemma_kinds_of_calls<B: BootServices, C: ConnectController<B>>(
    manager: SimpleBootManager<C>,
    image_handle: Handle,
    exchanges: Seq<Exchange>,
    phases: SimplePhases,
    hotkey_pressed: bool,
    i: int,
)
    requires
        boots_simply::<B, C>(manager, image_handle, exchanges, phases, hotkey_pressed),
        0 <= i < phases.options,
    ensures
        !(exchanges[i] is HandleFailure),
        !(exchanges[i] is LockBootPartition),
        exchanges[i] is Dispatch ==> i < phases.enumeration,
        exchanges[i] is SetVariable ==> phases.lockdown <= i < phases.consoles,
        interleave::only_enumerates::<B, C>(manager.strategy()) && (exchanges[i] is LoadImage
            || exchanges[i] is StartImage) ==> phases.ready <= i,
{
    if i < phases.enumeration {
        let part = exchanges.take(phases.enumeration);
        assert(part[i] == exchanges[i]);
        if manager.dispatches() {
            let outcome = choose|outcome: Result<(), EfiError>|
                interleave::interleaves::<B, C>(
                    manager.strategy(),
                    interleave::MAX_ROUNDS as nat,
                    part,
                    outcome,
                );
            interleave::lemma_kinds_of_interleaving::<B, C>(
                manager.strategy(),
                interleave::MAX_ROUNDS as nat,
                part,
                outcome,
                i,
            );
        }
    } else if i < phases.lockdown {
        let part = exchanges.subrange(phases.enumeration, phases.lockdown);
        assert(part[i - phases.enumeration] == exchanges[i]);
    } else if i < phases.consoles {
        let part = exchanges.subrange(phases.lockdown, phases.consoles);
        console::lemma_discovery_only_concerns_consoles(part, i - phases.lockdown);
    } else if i < phases.hotkey {
        let part = exchanges.subrange(phases.consoles, phases.hotkey);
        let k = i - phases.consoles;
        assert(part[k] == exchanges[i]);
        if k > 0 {
            assert(part.skip(1)[k - 1] == part[k]);
        }
    } else if i < phases.ready {
        let part = exchanges.subrange(phases.hotkey, phases.ready);
        assert(part[i - phases.hotkey] == exchanges[i]);
    } else {
        boot::lemma_attempts_only_concern_boot(
            image_handle,
            manager.configuration().selected_paths(hotkey_pressed),
            exchanges.subrange(phases.ready, phases.options),
            i - phases.ready,
        );
    }
}

/// Drivers are dispatched and variables written in one phase each, and no partition is locked.
proof fn lemma_parts_of_phases<B: BootServices, C: ConnectController<B>>(
    manager: SimpleBootManager<C>,
    image_handle: Handle,
    exchanges: Seq<Exchange>,
    phases: SimplePhases,
    hotkey_pressed: bool,
)
    requires
        boots_simply::<B, C>(manager, image_handle, exchanges, phases, hotkey_pressed),
    ensures
        firmware::dispatches(exchanges) == firmware::dispatches(
            exchanges.take(phases.enumeration),
        ),
        firmware::writes(exchanges) == firmware::writes(
            exchanges.subrange(phases.lockdown, phases.consoles),
        ),
        firmware::locks(exchanges) == Seq::<Exchange>::empty(),
{
    assert forall|i: int| 0 <= i < exchanges.len() implies ({
        let exchange = #[trigger] exchanges[i];
        &&& exchange is Dispatch ==> i < phases.enumeration
        &&& exchange is SetVariable ==> phases.lockdown <= i < phases.consoles
        &&& !(exchange is LockBootPartition)
    }) by {
        if i < phases.options {
            lemma_kinds_of_calls::<B, C>(
                manager,
                image_handle,
                exchanges,
                phases,
                hotkey_pressed,
                i,
            );
        }
    }
    firmware::lemma_parts_empty(exchanges);
    firmware::lemma_parts_within(exchanges, 0, phases.enumeration);
    firmware::lemma_parts_within(exchanges, phases.lockdown, phases.consoles);
}

/// No image is loaded before the system is locked down and drivers know that boot is imminent: the
/// EndOfDxe group, and behind it the ReadyToBoot group, had their turn to be signalled before.
pub proof fn images_are_loaded_after_signals<B: BootServices, C: ConnectController<B>>(
    manager: SimpleBootManager<C>,
    image_handle: Handle,
    exchanges: Seq<Exchange>,
    phases: SimplePhases,
    hotkey_pressed: bool,
    loaded: int,
)
    requires
        boots_simply::<B, C>(manager, image_handle, exchanges, phases, hotkey_pressed),
        interleave::only_enumerates::<B, C>(manager.strategy()),
        0 <= loaded < exchanges.len(),
        exchanges[loaded] is LoadImage,
    ensures
        phases.enumeration < phases.hotkey < loaded,
        exchanges[phases.enumeration] matches Exchange::CreateEvent { group, .. } && group
            == guid::spec_end_of_dxe_guid(),
        exchanges[phases.hotkey] matches Exchange::CreateEvent { group, .. } && group
            == guid::spec_ready_to_boot_guid(),
{
    assert(loaded < phases.options);
    lemma_kinds_of_calls::<B, C>(
        manager,
        image_handle,
        exchanges,
        phases,
        hotkey_pressed,
        loaded,
    );
    let end_of_dxe = exchanges.subrange(phases.enumeration, phases.lockdown);
    let ready_to_boot = exchanges.subrange(phases.hotkey, phases.ready);
    assert(end_of_dxe[0] == exchanges[phases.enumeration]);
    assert(ready_to_boot[0] == exchanges[phases.hotkey]);
}

/// The failure handler is called once, and nothing is tried after it.
pub proof fn failure_handler_comes_last<B: BootServices, C: ConnectController<B>>(
    manager: SimpleBootManager<C>,
    image_handle: Handle,
    exchanges: Seq<Exchange>,
    phases: SimplePhases,
    hotkey_pressed: bool,
    handled: int,
)
    requires
        boots_simply::<B, C>(manager, image_handle, exchanges, phases, hotkey_pressed),
        0 <= handled < exchanges.len(),
    ensures
        exchanges[handled] is HandleFailure <==> handled == exchanges.len() - 1,
{
    if handled < phases.options {
        lemma_kinds_of_calls::<B, C>(
            manager,
            image_handle,
            exchanges,
            phases,
            hotkey_pressed,
            handled,
        );
    }
}

/// The hotkey devices are tried only where a hotkey is configured and a keystroke with its scan
/// code was pending.
pub proof fn hotkey_devices_need_hotkey<B: BootServices, C: ConnectController<B>>(
    manager: SimpleBootManager<C>,
    image_handle: Handle,
    exchanges: Seq<Exchange>,
    phases: SimplePhases,
    hotkey_pressed: bool,
)
    requires
        boots_simply::<B, C>(manager, image_handle, exchanges, phases, hotkey_pressed),
    ensures
        hotkey_pressed ==> (manager.configuration().hotkey_scan_code() matches Some(scan_code)
            && hotkey::any_found(exchanges, scan_code)),
        boot::attempts_each(
            image_handle,
            if hotkey_pressed {
                manager.configuration().hotkey_device_paths()
            } else {
                manager.configuration().device_paths()
            },
            exchanges.subrange(phases.ready, phases.options),
        ),
{
    if hotkey_pressed {
        let scan_code = manager.configuration().hotkey_scan_code()->Some_0;
        let part = exchanges.subrange(phases.consoles, phases.hotkey);
        let k = choose|k: int|
            0 <= k < part.skip(1).len() && hotkey::found_key(
                #[trigger] part.skip(1)[k],
                scan_code,
            );
        assert(exchanges[phases.consoles + 1 + k] == part.skip(1)[k]);
    }
}

} // verus!
