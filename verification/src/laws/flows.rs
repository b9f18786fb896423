//! Laws of whole boot flows.
use vstd::prelude::*;

use crate::boot_dispatcher;
use crate::boot_dispatcher::{BdsContext, BdsServices, BootDispatcher};
use crate::boot_orchestrator::BootOrchestrator;
use crate::boot_storage::BootStorageService;
use crate::component::boot_orchestrator;
use crate::component::boot_orchestrator::{Conclusion, Run};
use crate::config::BootConfig;
use crate::connect_controller::ConnectController;
use crate::device_path::node::NodeView;
use crate::error;
use crate::error::EfiError;
use crate::firmware;
use crate::firmware::{
    BootServices, DxeDispatch, Exchange, Handle, Interface, RuntimeServices,
};
use crate::helpers::{boot, connect, console, events, hotkey, interleave};
use crate::orchestrators::simple_boot_manager;
use crate::orchestrators::simple_boot_manager::{SimpleBootManager, SimplePhases};
use crate::orchestrators::sre_boot_manager;
use crate::orchestrators::sre_boot_manager::{SreBootManager, SrePhases};
use crate::strategies::ConnectAllStrategy;

verus! {

/// Where all that is selected lies in one part, the part has all of it.
proof fn lemma_filter_within(
    exchanges: Seq<Exchange>,
    select: spec_fn(Exchange) -> bool,
    from: int,
    to: int,
)
    requires
        0 <= from <= to <= exchanges.len(),
        forall|i: int|
            0 <= i < exchanges.len() && select(#[trigger] exchanges[i]) ==> from <= i < to,
    ensures
        exchanges.filter(select) == exchanges.subrange(from, to).filter(select),
{
    let before = exchanges.take(from);
    let part = exchanges.subrange(from, to);
    let behind = exchanges.skip(to);
    assert(exchanges =~= before + part + behind);
    Seq::filter_distributes_over_add(before + part, behind, select);
    Seq::filter_distributes_over_add(before, part, select);
    assert forall|i: int| 0 <= i < before.len() implies !select(#[trigger] before[i]) by {
        assert(before[i] == exchanges[i]);
    }
    assert forall|i: int| 0 <= i < behind.len() implies !select(#[trigger] behind[i]) by {
        assert(behind[i] == exchanges[i + to]);
    }
    lemma_filter_none(before, select);
    lemma_filter_none(behind, select);
    assert(exchanges.filter(select) =~= part.filter(select));
}

/// Where nothing is selected, nothing is left.
proof fn lemma_filter_none(exchanges: Seq<Exchange>, select: spec_fn(Exchange) -> bool)
    requires
        forall|i: int| 0 <= i < exchanges.len() ==> !select(#[trigger] exchanges[i]),
    ensures
        exchanges.filter(select) == Seq::<Exchange>::empty(),
    decreases exchanges.len(),
{
    reveal(Seq::filter);
    if exchanges.len() > 0 {
        let before = exchanges.drop_last();
        assert forall|i: int| 0 <= i < before.len() implies !select(#[trigger] before[i]) by {
            assert(before[i] == exchanges[i]);
        }
        lemma_filter_none(before, select);
        assert(!select(exchanges[exchanges.len() - 1]));
    }
}

/// Devices are enumerated in one pass of the strategy by boot services alone, or in at most ten
/// rounds interleaved with driver dispatch.
pub proof fn enumeration_is_by_strategy<B: BootServices, C: ConnectController<B>>(
    strategy: C,
    dispatches: bool,
    exchanges: Seq<Exchange>,
) -> (outcome: Result<(), EfiError>)
    requires
        simple_boot_manager::enumerates_by::<B, C>(strategy, dispatches, exchanges),
    ensures
        dispatches ==> interleave::interleaves::<B, C>(strategy, 10, exchanges, outcome),
        !dispatches ==> strategy.performed(exchanges, outcome) && forall|i: int|
            0 <= i < exchanges.len() ==> !(#[trigger] exchanges[i] is SetVariable)
                && !(exchanges[i] is Dispatch) && !(exchanges[i] is LockBootPartition)
                && !(exchanges[i] is HandleFailure),
{
    if dispatches {
        choose|outcome: Result<(), EfiError>|
            interleave::interleaves::<B, C>(strategy, 10, exchanges, outcome)
    } else {
        assert forall|i: int| 0 <= i < exchanges.len() implies !(#[trigger] exchanges[i] is
            SetVariable) && !(exchanges[i] is Dispatch) && !(exchanges[i] is LockBootPartition)
            && !(exchanges[i] is HandleFailure) by {
            assert(exchanges[i].calls_boot_services());
        }
        choose|outcome: Result<(), EfiError>| strategy.performed(exchanges, outcome)
    }
}

/// What a boot flow that returns has done: it went through all its phases and handled the failure.
pub proof fn simple_flow_goes_to_its_end<
    B: BootServices,
    R: RuntimeServices,
    D: DxeDispatch,
    S: BootStorageService,
    C: ConnectController<B>,
>(
    manager: SimpleBootManager<C>,
    with_storage: bool,
    image_handle: Handle,
    exchanges: Seq<Exchange>,
    failure: EfiError,
) -> (flow: (SimplePhases, bool))
    requires
        BootOrchestrator::<B, R, D, S>::executed(
            &manager,
            with_storage,
            image_handle,
            exchanges,
            failure,
        ),
    ensures
        failure == EfiError::NotFound,
        manager.configuration().failure_handled(),
        simple_boot_manager::boots_simply::<B, C>(
            manager,
            image_handle,
            exchanges,
            flow.0,
            flow.1,
        ),
{
    choose|phases: SimplePhases, hotkey_pressed: bool|
        simple_boot_manager::boots_simply::<B, C>(
            manager,
            image_handle,
            exchanges,
            phases,
            hotkey_pressed,
        )
}

/// The phases of the boot flow follow each other without a gap, each whatever came of those before:
/// enumeration, EndOfDxe, consoles, hotkey, ReadyToBoot, the devices that the hotkey selects, and
/// the failure handler.
pub proof fn simple_flow_has_its_phases<B: BootServices, C: ConnectController<B>>(
    manager: SimpleBootManager<C>,
    image_handle: Handle,
    exchanges: Seq<Exchange>,
    phases: SimplePhases,
    hotkey_pressed: bool,
)
    requires
        simple_boot_manager::boots_simply::<B, C>(
            manager,
            image_handle,
            exchanges,
            phases,
            hotkey_pressed,
        ),
    ensures
        0 <= phases.enumeration < phases.lockdown < phases.consoles <= phases.hotkey < phases.ready
            <= phases.options,
        phases.options == exchanges.len() - 1,
        simple_boot_manager::enumerates_by::<B, C>(
            manager.strategy(),
            manager.dispatches(),
            exchanges.take(phases.enumeration),
        ),
        exists|outcome: Result<(), EfiError>|
            events::signals_group(
                seq![
                    0x7au8, 0x96, 0xce, 0x02, 0x7e, 0xdd, 0xfc, 0x4f, 0x9e, 0xe7, 0x81, 0x0c, 0xf0,
                    0x47, 0x08, 0x80,
                ],
                exchanges.subrange(phases.enumeration, phases.lockdown),
                outcome,
            ),
        console::discovers_consoles(exchanges.subrange(phases.lockdown, phases.consoles)),
        hotkey::checks_hotkey(
            manager.configuration().hotkey_scan_code(),
            exchanges.subrange(phases.consoles, phases.hotkey),
            hotkey_pressed,
        ),
        exists|outcome: Result<(), EfiError>|
            events::signals_group(
                seq![
                    0xb3u8, 0x8f, 0xe8, 0x7c, 0xd7, 0x4b, 0x79, 0x46, 0x87, 0xa8, 0xa8, 0xd8, 0xde,
                    0xe5, 0x0d, 0x2b,
                ],
                exchanges.subrange(phases.hotkey, phases.ready),
                outcome,
            ),
        hotkey_pressed ==> boot::attempts_each(
            image_handle,
            manager.configuration().hotkey_device_paths(),
            exchanges.subrange(phases.ready, phases.options),
        ),
        !hotkey_pressed ==> boot::attempts_each(
            image_handle,
            manager.configuration().device_paths(),
            exchanges.subrange(phases.ready, phases.options),
        ),
        exchanges.last() is HandleFailure,
{
    super::identifiers::guids_have_their_bytes();
    lemma_discovery_takes_calls(exchanges.subrange(phases.lockdown, phases.consoles));
}

/// Discovering consoles takes at least one call.
proof fn lemma_discovery_takes_calls(exchanges: Seq<Exchange>)
    requires
        console::discovers_consoles(exchanges),
    ensures
        exchanges.len() > 0,
{
    let (first, second) = choose|first: int, second: int|
        console::updates_in_turn(exchanges, first, second);
    let part = exchanges.take(first);
    let protocols = seq![crate::guid::spec_simple_text_input_guid()];
    let asked = choose|asked: int|
        console::gathers_then_writes(console::con_in_name(), protocols, part, asked);
    assert(console::gathers_then_writes(console::con_in_name(), protocols, part, asked));
    assert(part.take(asked).len() > 0);
}

/// Where enumeration by the strategy only looks at handles and connects controllers, the images that
/// the boot flow loads are those of the selected devices: with full paths, exactly one for each,
/// in order, from its own path, whatever came of those before.
pub proof fn simple_flow_loads_every_selected_device<B: BootServices, C: ConnectController<B>>(
    manager: SimpleBootManager<C>,
    image_handle: Handle,
    exchanges: Seq<Exchange>,
    phases: SimplePhases,
    hotkey_pressed: bool,
    devices: Seq<Seq<NodeView>>,
)
    requires
        simple_boot_manager::boots_simply::<B, C>(
            manager,
            image_handle,
            exchanges,
            phases,
            hotkey_pressed,
        ),
        forall|part: Seq<Exchange>, outcome: Result<(), EfiError>, i: int|
            #![trigger manager.strategy().performed(part, outcome), part[i]]
            manager.strategy().performed(part, outcome) && 0 <= i < part.len() ==> part[i] is
                LocateHandles || part[i] is ConnectController || part[i] is DevicePath
                || part[i] is HandleProtocol || part[i] is LocateDevicePath,
        hotkey_pressed ==> devices == manager.configuration().hotkey_device_paths(),
        !hotkey_pressed ==> devices == manager.configuration().device_paths(),
        forall|i: int|
            0 <= i < devices.len() ==> (#[trigger] devices[i]).len() == 0 || devices[i][0].node_type
                == 1 || devices[i][0].node_type == 2 || devices[i][0].node_type == 0x7f,
    ensures
        ({
            let loads = exchanges.filter(|exchange: Exchange| exchange is LoadImage);
            &&& loads.len() == devices.len()
            &&& forall|i: int|
                0 <= i < devices.len() ==> (#[trigger] loads[i] matches Exchange::LoadImage {
                    boot_policy,
                    parent,
                    path,
                    ..
                } && boot_policy && parent == image_handle && path == devices[i])
        }),
{
    let select = |exchange: Exchange| exchange is LoadImage;
    assert(interleave::only_enumerates::<B, C>(manager.strategy()));
    assert forall|i: int|
        0 <= i < exchanges.len() && select(#[trigger] exchanges[i]) implies phases.ready <= i
        < phases.options by {
        if i < phases.options {
            simple_boot_manager::lemma_kinds_of_calls::<B, C>(
                manager,
                image_handle,
                exchanges,
                phases,
                hotkey_pressed,
                i,
            );
        }
    }
    lemma_filter_within(exchanges, select, phases.ready, phases.options);
    super::booting::every_full_path_is_loaded_once(
        image_handle,
        devices,
        exchanges.subrange(phases.ready, phases.options),
    );
}

/// The hotkey devices are booted from exactly where a hotkey is configured and a keystroke with its
/// very scan code was read while the hotkey was looked for.
pub proof fn simple_flow_obeys_the_hotkey<B: BootServices, C: ConnectController<B>>(
    manager: SimpleBootManager<C>,
    image_handle: Handle,
    exchanges: Seq<Exchange>,
    phases: SimplePhases,
    hotkey_pressed: bool,
)
    requires
        simple_boot_manager::boots_simply::<B, C>(
            manager,
            image_handle,
            exchanges,
            phases,
            hotkey_pressed,
        ),
    ensures
        ({
            let part = exchanges.subrange(phases.consoles, phases.hotkey);
            hotkey_pressed <==> (manager.configuration().hotkey_scan_code() matches Some(scan_code)
                && exists|i: int, k: int|
                #![trigger part[i], part[i]->ReadKeyStrokes_reply->Ok_0[k]]
                0 <= i < part.len() && (part[i] matches Exchange::ReadKeyStrokes {
                    reply: Ok(keys),
                    ..
                } && 0 <= k < keys.len() && keys[k].scan_code == scan_code))
        }),
{
    let part = exchanges.subrange(phases.consoles, phases.hotkey);
    if let Some(scan_code) = manager.configuration().hotkey_scan_code() {
        super::hotkeys::pressed_means_scan_code_was_read(scan_code, part, hotkey_pressed);
    }
}

/// What the boot flow of the main OS that returns has done: it went through all its phases.
pub proof fn normal_flow_goes_to_its_end<
    B: BootServices,
    R: RuntimeServices,
    D: DxeDispatch,
    S: BootStorageService,
>(
    manager: SreBootManager,
    with_storage: bool,
    image_handle: Handle,
    exchanges: Seq<Exchange>,
    failure: EfiError,
) -> (phases: SrePhases)
    requires
        BootOrchestrator::<B, R, D, S>::executed(
            &manager,
            with_storage,
            image_handle,
            exchanges,
            failure,
        ),
    ensures
        failure == EfiError::NotFound,
        sre_boot_manager::boots_normally::<B>(
            manager.main_os(),
            with_storage,
            image_handle,
            exchanges,
            phases,
        ),
{
    choose|phases: SrePhases|
        sre_boot_manager::boots_normally::<B>(
            manager.main_os(),
            with_storage,
            image_handle,
            exchanges,
            phases,
        )
}

/// The phases of the boot flow of the main OS follow each other without a gap, each whatever came of
/// those before: enumeration of all controllers interleaved with driver dispatch, EndOfDxe,
/// consoles, the lock of the boot partition where a storage service is there, ReadyToBoot, and the
/// main OS.
pub proof fn normal_flow_has_its_phases<B: BootServices>(
    main_os: Seq<NodeView>,
    with_storage: bool,
    image_handle: Handle,
    exchanges: Seq<Exchange>,
    phases: SrePhases,
)
    requires
        sre_boot_manager::boots_normally::<B>(
            main_os,
            with_storage,
            image_handle,
            exchanges,
            phases,
        ),
    ensures
        0 <= phases.enumeration < phases.lockdown < phases.consoles <= phases.storage < phases.ready
            <= exchanges.len(),
        exists|outcome: Result<(), EfiError>|
            interleave::interleaves::<B, ConnectAllStrategy>(
                ConnectAllStrategy,
                10,
                exchanges.take(phases.enumeration),
                outcome,
            ),
        exists|outcome: Result<(), EfiError>|
            events::signals_group(
                seq![
                    0x7au8, 0x96, 0xce, 0x02, 0x7e, 0xdd, 0xfc, 0x4f, 0x9e, 0xe7, 0x81, 0x0c, 0xf0,
                    0x47, 0x08, 0x80,
                ],
                exchanges.subrange(phases.enumeration, phases.lockdown),
                outcome,
            ),
        console::discovers_consoles(exchanges.subrange(phases.lockdown, phases.consoles)),
        with_storage ==> phases.storage == phases.consoles + 1 && exchanges[phases.consoles] is
            LockBootPartition,
        !with_storage ==> phases.storage == phases.consoles,
        exists|outcome: Result<(), EfiError>|
            events::signals_group(
                seq![
                    0xb3u8, 0x8f, 0xe8, 0x7c, 0xd7, 0x4b, 0x79, 0x46, 0x87, 0xa8, 0xa8, 0xd8, 0xde,
                    0xe5, 0x0d, 0x2b,
                ],
                exchanges.subrange(phases.storage, phases.ready),
                outcome,
            ),
        exists|outcome: Result<(), EfiError>|
            boot::boots(
                image_handle,
                main_os,
                exchanges.subrange(phases.ready, exchanges.len() as int),
                outcome,
            ),
{
    super::identifiers::guids_have_their_bytes();
    lemma_discovery_takes_calls(exchanges.subrange(phases.lockdown, phases.consoles));
    let locking = exchanges.subrange(phases.consoles, phases.storage);
    if with_storage {
        assert(locking[0] == exchanges[phases.consoles]);
    }
}

/// The images that the boot flow of the main OS loads: with a full path, exactly one, from the path
/// of the main OS.
pub proof fn normal_flow_loads_the_main_os<B: BootServices>(
    main_os: Seq<NodeView>,
    with_storage: bool,
    image_handle: Handle,
    exchanges: Seq<Exchange>,
    phases: SrePhases,
)
    requires
        sre_boot_manager::boots_normally::<B>(
            main_os,
            with_storage,
            image_handle,
            exchanges,
            phases,
        ),
        main_os.len() == 0 || main_os[0].node_type == 1 || main_os[0].node_type == 2
            || main_os[0].node_type == 0x7f,
    ensures
        ({
            let loads = exchanges.filter(|exchange: Exchange| exchange is LoadImage);
            &&& loads.len() == 1
            &&& loads[0] matches Exchange::LoadImage { boot_policy, parent, path, .. }
            &&& boot_policy && parent == image_handle && path == main_os
        }),
{
    let select = |exchange: Exchange| exchange is LoadImage;
    let end = exchanges.len() as int;
    assert forall|i: int|
        0 <= i < exchanges.len() && select(#[trigger] exchanges[i]) implies phases.ready <= i
        < end by {
        sre_boot_manager::lemma_kinds_of_calls::<B>(
            main_os,
            with_storage,
            image_handle,
            exchanges,
            phases,
            i,
        );
    }
    lemma_filter_within(exchanges, select, phases.ready, end);
    let part = exchanges.subrange(phases.ready, end);
    let outcome = choose|outcome: Result<(), EfiError>|
        boot::boots(image_handle, main_os, part, outcome);
    let ends = seq![0int, part.len() as int];
    assert(part.subrange(0, part.len() as int) =~= part);
    assert(boot::attempts(image_handle, main_os, part, 0, part.len() as int));
    assert(boot::attempts_between(image_handle, seq![main_os], part, ends));
    super::booting::every_full_path_is_loaded_once(image_handle, seq![main_os], part);
    assert(exchanges.filter(select) == part.filter(select));
    assert(part.filter(select)[0] is LoadImage);
}

/// The boot partition is locked once where a storage service is there, and never where none is.
pub proof fn normal_flow_locks_once<B: BootServices>(
    main_os: Seq<NodeView>,
    with_storage: bool,
    image_handle: Handle,
    exchanges: Seq<Exchange>,
    phases: SrePhases,
)
    requires
        sre_boot_manager::boots_normally::<B>(
            main_os,
            with_storage,
            image_handle,
            exchanges,
            phases,
        ),
    ensures
        exchanges.filter(|exchange: Exchange| exchange is LockBootPartition).len()
            == if with_storage {
            1int
        } else {
            0
        },
{
    normal_flow_has_its_phases::<B>(main_os, with_storage, image_handle, exchanges, phases);
    sre_boot_manager::partition_is_locked_once::<B>(
        main_os,
        with_storage,
        image_handle,
        exchanges,
        phases,
        phases.consoles - 1,
    );
}

/// The component ends with the first of its phases that fails, and with that failure. It waits
/// exactly where none fails and there is an image to load boot images on behalf of.
pub proof fn component_stops_at_first_failure(
    config: BootConfig,
    image_handle: Option<Handle>,
    exchanges: Seq<Exchange>,
    conclusion: Conclusion,
    run: Run,
)
    requires
        boot_orchestrator::runs(config, image_handle, exchanges, conclusion, run),
    ensures
        conclusion == match (run.enumerated, run.locked_down, run.signalled, image_handle) {
            (Err(failure), _, _, _) => Conclusion::Fail(failure),
            (Ok(_), Err(failure), _, _) => Conclusion::Fail(failure),
            (Ok(_), Ok(_), Err(failure), _) => Conclusion::Fail(failure),
            (Ok(_), Ok(_), Ok(_), None) => Conclusion::Fail(EfiError::InvalidParameter),
            (Ok(_), Ok(_), Ok(_), Some(_)) => Conclusion::Wait,
        },
        run.enumerated is Err ==> exchanges.len() == run.enumeration,
        run.enumerated is Ok && run.locked_down is Err ==> exchanges.len() == run.lockdown,
        run.enumerated is Ok && run.locked_down is Ok && (run.signalled is Err || image_handle is
            None) ==> exchanges.len() == run.ready,
{
}

/// The phases of the component follow each other without a gap, as far as it goes: enumeration,
/// EndOfDxe, consoles, hotkey, ReadyToBoot, the devices that the hotkey selects, and the failure
/// handler.
pub proof fn component_has_its_phases(
    config: BootConfig,
    image_handle: Option<Handle>,
    exchanges: Seq<Exchange>,
    conclusion: Conclusion,
    run: Run,
)
    requires
        boot_orchestrator::runs(config, image_handle, exchanges, conclusion, run),
    ensures
        0 <= run.enumeration <= exchanges.len(),
        connect::enumerates(0, 10, exchanges.take(run.enumeration), run.enumerated),
        run.enumerated is Ok ==> run.enumeration < run.lockdown <= exchanges.len()
            && events::signals_group(
            seq![
                0x7au8, 0x96, 0xce, 0x02, 0x7e, 0xdd, 0xfc, 0x4f, 0x9e, 0xe7, 0x81, 0x0c, 0xf0,
                0x47, 0x08, 0x80,
            ],
            exchanges.subrange(run.enumeration, run.lockdown),
            run.locked_down,
        ),
        run.enumerated is Ok && run.locked_down is Ok ==> {
            &&& run.lockdown < run.consoles <= run.hotkey < run.ready <= exchanges.len()
            &&& console::discovers_consoles(exchanges.subrange(run.lockdown, run.consoles))
            &&& hotkey::checks_hotkey(
                config.hotkey_scan_code(),
                exchanges.subrange(run.consoles, run.hotkey),
                run.hotkey_pressed,
            )
            &&& events::signals_group(
                seq![
                    0xb3u8, 0x8f, 0xe8, 0x7c, 0xd7, 0x4b, 0x79, 0x46, 0x87, 0xa8, 0xa8, 0xd8, 0xde,
                    0xe5, 0x0d, 0x2b,
                ],
                exchanges.subrange(run.hotkey, run.ready),
                run.signalled,
            )
        },
        conclusion is Wait ==> {
            let end = exchanges.len() - 1;
            &&& image_handle matches Some(parent)
            &&& run.ready <= end
            &&& exchanges[end] is HandleFailure
            &&& run.hotkey_pressed ==> boot::attempts_each(
                parent,
                config.hotkey_device_paths(),
                exchanges.subrange(run.ready, end),
            )
            &&& !run.hotkey_pressed ==> boot::attempts_each(
                parent,
                config.device_paths(),
                exchanges.subrange(run.ready, end),
            )
        },
{
    super::identifiers::guids_have_their_bytes();
    component_stops_at_first_failure(config, image_handle, exchanges, conclusion, run);
    if run.enumerated is Ok && run.locked_down is Ok {
        lemma_discovery_takes_calls(exchanges.subrange(run.lockdown, run.consoles));
    }
    if conclusion is Wait {
        let end = exchanges.len() - 1;
        let rest = exchanges.skip(run.ready);
        assert(boot_orchestrator::tries_options(
            config,
            image_handle,
            run.hotkey_pressed,
            rest,
            conclusion,
        ));
        assert(rest.drop_last() =~= exchanges.subrange(run.ready, end));
        assert(rest.last() == exchanges[end]);
    }
}

/// The images that the component loads when it gets so far: with full paths, exactly one for each of
/// the devices that the hotkey selects, in order.
pub proof fn component_loads_every_selected_device(
    config: BootConfig,
    image_handle: Handle,
    exchanges: Seq<Exchange>,
    conclusion: Conclusion,
    run: Run,
    devices: Seq<Seq<NodeView>>,
)
    requires
        boot_orchestrator::runs(config, Some(image_handle), exchanges, conclusion, run),
        conclusion is Wait,
        run.hotkey_pressed ==> devices == config.hotkey_device_paths(),
        !run.hotkey_pressed ==> devices == config.device_paths(),
        forall|i: int|
            0 <= i < devices.len() ==> (#[trigger] devices[i]).len() == 0 || devices[i][0].node_type
                == 1 || devices[i][0].node_type == 2 || devices[i][0].node_type == 0x7f,
    ensures
        ({
            let loads = exchanges.filter(|exchange: Exchange| exchange is LoadImage);
            &&& loads.len() == devices.len()
            &&& forall|i: int|
                0 <= i < devices.len() ==> (#[trigger] loads[i] matches Exchange::LoadImage {
                    boot_policy,
                    parent,
                    path,
                    ..
                } && boot_policy && parent == image_handle && path == devices[i])
        }),
{
    let select = |exchange: Exchange| exchange is LoadImage;
    let end = exchanges.len() - 1;
    component_has_its_phases(config, Some(image_handle), exchanges, conclusion, run);
    assert forall|i: int|
        0 <= i < exchanges.len() && select(#[trigger] exchanges[i]) implies run.ready <= i
        < end by {
        boot_orchestrator::lemma_kinds_of_calls(
            config,
            Some(image_handle),
            exchanges,
            conclusion,
            run,
            i,
        );
    }
    lemma_filter_within(exchanges, select, run.ready, end);
    super::booting::every_full_path_is_loaded_once(
        image_handle,
        devices,
        exchanges.subrange(run.ready, end),
    );
}

/// Without an image nothing is offered for the BDS phase; with one, whatever its handle, the boot
/// flow with the services and that image is.
pub proof fn dispatcher_offers_its_flow<O, B, R, D, S>(
    dispatcher: BootDispatcher<O>,
    services: BdsServices<B, R, D, S>,
    image_handle: Handle,
)
    ensures
        dispatcher.offer(services, None) is None,
        dispatcher.offer(services, Some(image_handle)) == Some(
            BdsContext { orchestrator: dispatcher.flow(), services, image_handle },
        ),
{
}

/// A context that is kept stays when another is offered, and what is offered is kept where none was.
pub proof fn first_offer_wins<T>(kept: T, offered: Option<T>)
    ensures
        boot_dispatcher::kept_after(Some(kept), offered) == Some(kept),
        boot_dispatcher::kept_after(None, offered) == offered,
{
}

/// The BDS architectural protocol is installed once, on a new handle, with the interface that was
/// given. It fails as the installation does.
pub proof fn bds_protocol_is_installed_once(
    bds_protocol: Interface,
    exchanges: Seq<Exchange>,
    outcome: Result<(), EfiError>,
)
    requires
        boot_dispatcher::installs_bds(bds_protocol, exchanges, outcome),
    ensures
        exchanges.len() == 1,
        exchanges[0] matches Exchange::InstallProtocol { handle, protocol, interface, reply }
            && handle is None && protocol == seq![
            0xf6u8, 0x3f, 0x5e, 0x66, 0xcc, 0x46, 0xd4, 0x11, 0x9a, 0x38, 0x00, 0x90, 0x27, 0x3f,
            0xc1, 0x4d,
        ] && interface == bds_protocol && (reply is Ok ==> outcome is Ok) && (reply matches Err(
            status,
        ) ==> (outcome matches Err(failure) && failure == error::error_of(status))),
{
    super::identifiers::guids_have_their_bytes();
}

/// The boot flow that was kept is what runs, on the services and the image that were kept with it;
/// what each of the services was asked for is what the record says.
pub proof fn kept_flow_is_what_runs<
    B: BootServices,
    R: RuntimeServices,
    D: DxeDispatch,
    S: BootStorageService,
    O: BootOrchestrator<B, R, D, S>,
>(
    orchestrator: O,
    image_handle: Handle,
    before: BdsServices<B, R, D, S>,
    after: BdsServices<B, R, D, S>,
    failure: EfiError,
)
    requires
        boot_dispatcher::ran(orchestrator, image_handle, before, after, failure),
    ensures
        ({
            let exchanges = after.firmware.since(before.firmware);
            &&& after.firmware.history() == before.firmware.history() + exchanges
            &&& before.firmware.faithful() ==> after.firmware.faithful()
            &&& orchestrator.executed(
                before.boot_storage is Some,
                image_handle,
                exchanges,
                failure,
            )
            &&& after.runtime_services.written() == before.runtime_services.written()
                + exchanges.filter(|exchange: Exchange| exchange is SetVariable)
            &&& after.dxe_dispatch.dispatched() == before.dxe_dispatch.dispatched()
                + exchanges.filter(|exchange: Exchange| exchange is Dispatch)
            &&& firmware::locked_by(after.boot_storage) == firmware::locked_by(before.boot_storage)
                + exchanges.filter(|exchange: Exchange| exchange is LockBootPartition)
        }),
{
    super::record::record_only_grows(before.firmware, after.firmware);
    super::record::services_share_the_record(after.firmware.since(before.firmware));
}

} // verus!
