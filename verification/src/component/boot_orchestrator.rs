//! The component that boots from the devices of a configuration.
use vstd::prelude::*;

use crate::config::BootConfig;
use crate::error::EfiError;
use crate::firmware;
use crate::firmware::{BootServices, Exchange, Firmware, Handle, RuntimeServices};
use crate::guid;
use crate::helpers::{boot, connect, console, events, hotkey};

verus! {

/// What the component does in the end.
#[derive(Clone, Copy, Debug, PartialEq, Eq)]
pub enum Conclusion {
    /// It returns with a failure: a step ahead of the boot failed.
    Fail(EfiError),
    /// It never returns: every boot option was tried and the failure handler has returned, so that
    /// nothing is left but to wait forever. Waiting is up to the caller.
    Wait,
}

/// Where the phases of a run end, as numbers of exchanges, and what came of them.
pub struct Run {
    /// Devices are enumerated.
    pub enumeration: int,
    pub enumerated: Result<(), EfiError>,
    /// EndOfDxe is signalled.
    pub lockdown: int,
    pub locked_down: Result<(), EfiError>,
    /// Consoles are discovered.
    pub consoles: int,
    /// The hotkey is looked for.
    pub hotkey: int,
    pub hotkey_pressed: bool,
    /// ReadyToBoot is signalled.
    pub ready: int,
    pub signalled: Result<(), EfiError>,
}

/// The exchanges try every boot option, and then call the failure handler. Without an image to load
/// boot images on behalf of, nothing is tried.
pub open spec fn tries_options(
    config: BootConfig,
    image_handle: Option<Handle>,
    hotkey_pressed: bool,
    exchanges: Seq<Exchange>,
    conclusion: Conclusion,
) -> bool {
    match image_handle {
        None => {
            &&& exchanges.len() == 0
            &&& conclusion == Conclusion::Fail(EfiError::InvalidParameter)
        },
        Some(image_handle) => {
            &&& exchanges.len() > 0
            &&& boot::attempts_each(
                image_handle,
                config.selected_paths(hotkey_pressed),
                exchanges.drop_last(),
            )
            &&& exchanges.last() is HandleFailure
            &&& conclusion is Wait
        },
    }
}

/// The exchanges are a run of the component, with that conclusion. The first phase that fails is
/// the last.
pub open spec fn runs(
    config: BootConfig,
    image_handle: Option<Handle>,
    exchanges: Seq<Exchange>,
    conclusion: Conclusion,
    run: Run,
) -> bool {
    &&& 0 <= run.enumeration <= exchanges.len()
    &&& connect::enumerates(
        0,
        connect::MAX_PASSES as nat,
        exchanges.take(run.enumeration),
        run.enumerated,
    )
    &&& if run.enumerated is Err {
        exchanges.len() == run.enumeration && conclusion == Conclusion::Fail(run.enumerated->Err_0)
    } else {
        &&& run.enumeration <= run.lockdown <= exchanges.len()
        &&& events::signals_group(
            guid::spec_end_of_dxe_guid(),
            exchanges.subrange(run.enumeration, run.lockdown),
            run.locked_down,
        )
        &&& if run.locked_down is Err {
            exchanges.len() == run.lockdown && conclusion == Conclusion::Fail(run.locked_down->Err_0)
        } else {
            &&& run.lockdown <= run.consoles <= run.hotkey <= run.ready <= exchanges.len()
            &&& console::discovers_consoles(exchanges.subrange(run.lockdown, run.consoles))
            &&& hotkey::checks_hotkey(
                config.hotkey_scan_code(),
                exchanges.subrange(run.consoles, run.hotkey),
                run.hotkey_pressed,
            )
            &&& events::signals_group(
                guid::spec_ready_to_boot_guid(),
                exchanges.subrange(run.hotkey, run.ready),
                run.signalled,
            )
            &&& if run.signalled is Err {
                exchanges.len() == run.ready && conclusion == Conclusion::Fail(run.signalled->Err_0)
            } else {
                tries_options(
                    config,
                    image_handle,
                    run.hotkey_pressed,
                    exchanges.skip(run.ready),
                    conclusion,
                )
            }
        }
    }
}

/// Boots from the devices of a [`BootConfig`], as a component of its own.
///
/// Unlike [`SimpleBootManager`](crate::SimpleBootManager), it gives up as soon as a step ahead of
/// the boot fails.
#[derive(Clone, Copy, Debug)]
pub struct BootOrchestrator;

impl BootOrchestrator {
    /// Runs the component.
    ///
    /// 1. Connect all controllers
    /// 2. Signal EndOfDxe, at which the system is locked down
    /// 3. Discover console devices
    /// 4. Look for the hotkey, where one is configured
    /// 5. Signal ReadyToBoot
    /// 6. Try the devices in order
    /// 7. Call the failure handler
    ///
    /// What is returned is how the component goes on from there.
    #[verifier::spinoff_prover]
    #[verifier::rlimit(40)]
    pub fn entry_point<B: BootServices, R: RuntimeServices>(
        self,
        firmware: &mut Firmware<B>,
        runtime_services: &mut R,
        boot_options: &BootConfig,
        image_handle: Option<Handle>,
    ) -> (conclusion: Conclusion)
        ensures
            final(firmware).follows(*old(firmware)),
            exists|run: Run|
                runs(
                    *boot_options,
                    image_handle,
                    final(firmware).since(*old(firmware)),
                    conclusion,
                    run,
                ),
            final(runtime_services).written() == old(runtime_services).written()
                + firmware::writes(final(firmware).since(*old(firmware))),
            conclusion is Wait ==> boot_options.failure_handled(),
    {
        let ghost start = *firmware;
        let ghost written = runtime_services.written();
        let enumerated = connect::connect_all(firmware);
        let ghost enumeration = *firmware;
        let ghost mut run = Run {
            enumeration: enumeration.since(start).len() as int,
            enumerated,
            lockdown: 0,
            locked_down: Ok(()),
            consoles: 0,
            hotkey: 0,
            hotkey_pressed: false,
            ready: 0,
            signalled: Ok(()),
        };
        proof {
            assert(enumeration.since(start).take(run.enumeration) =~= enumeration.since(start));
        }
        if let Err(failure) = enumerated {
            proof {
                let exchanges = firmware.since(start);
                assert(runs(*boot_options, image_handle, exchanges, Conclusion::Fail(failure), run));
                lemma_writes_of_run(*boot_options, image_handle, exchanges, Conclusion::Fail(failure), run);
                assert(runtime_services.written() =~= written + firmware::writes(exchanges));
            }
            return Conclusion::Fail(failure);
        }
        let locked_down = events::signal_bds_phase_entry(firmware);
        let ghost lockdown = *firmware;
        proof {
            firmware::lemma_since_between(start, enumeration, lockdown, lockdown);
            run = Run { lockdown: lockdown.since(start).len() as int, locked_down, ..run };
            assert(lockdown.since(start).take(run.enumeration) =~= enumeration.since(start));
        }
        if let Err(failure) = locked_down {
            proof {
                let exchanges = firmware.since(start);
                assert(runs(*boot_options, image_handle, exchanges, Conclusion::Fail(failure), run));
                lemma_writes_of_run(*boot_options, image_handle, exchanges, Conclusion::Fail(failure), run);
                assert(runtime_services.written() =~= written + firmware::writes(exchanges));
            }
            return Conclusion::Fail(failure);
        }
        let _ = console::discover_console_devices(firmware, runtime_services);
        let ghost consoles = *firmware;
        let hotkey_pressed = hotkey::check_hotkey(firmware, boot_options.hotkey());
        let ghost checked = *firmware;
        let signalled = events::signal_ready_to_boot(firmware);
        let ghost ready = *firmware;
        proof {
            firmware::lemma_since_transitive(consoles, checked, ready);
            firmware::lemma_since_transitive(lockdown, consoles, ready);
            firmware::lemma_since_between(start, enumeration, lockdown, ready);
            firmware::lemma_since_between(start, lockdown, consoles, ready);
            firmware::lemma_since_transitive(start, lockdown, consoles);
            firmware::lemma_since_between(start, consoles, checked, ready);
            firmware::lemma_since_transitive(start, consoles, checked);
            firmware::lemma_since_between(start, checked, ready, ready);
            run =
            Run {
                consoles: consoles.since(start).len() as int,
                hotkey: checked.since(start).len() as int,
                hotkey_pressed,
                ready: ready.since(start).len() as int,
                signalled,
                ..run
            };
            assert(ready.since(start).take(run.enumeration) =~= enumeration.since(start));
            assert(ready.since(start).skip(run.ready) =~= Seq::<Exchange>::empty());
        }
        if let Err(failure) = signalled {
            proof {
                let exchanges = firmware.since(start);
                assert(runs(*boot_options, image_handle, exchanges, Conclusion::Fail(failure), run));
                lemma_writes_of_run(*boot_options, image_handle, exchanges, Conclusion::Fail(failure), run);
                assert(runtime_services.written() =~= written + firmware::writes(exchanges));
            }
            return Conclusion::Fail(failure);
        }
        let parent_handle = match image_handle {
            Some(parent_handle) => parent_handle,
            None => {
                proof {
                    let exchanges = firmware.since(start);
                    let failed = Conclusion::Fail(EfiError::InvalidParameter);
                    assert(runs(*boot_options, image_handle, exchanges, failed, run));
                    lemma_writes_of_run(*boot_options, image_handle, exchanges, failed, run);
                }
                return Conclusion::Fail(EfiError::InvalidParameter);
            },
        };
        boot::boot_from_each(
            firmware,
            parent_handle,
            boot_options.select_devices(hotkey_pressed),
        );
        let ghost tried = *firmware;
        firmware.handle_failure(boot_options);
        proof {
            firmware::lemma_since_transitive(ready, tried, *firmware);
            firmware::lemma_since_transitive(start, ready, *firmware);
            let before = ready.since(start);
            let exchanges = firmware.since(start);
            assert(exchanges.take(run.enumeration) =~= before.take(run.enumeration));
            assert(exchanges.subrange(run.enumeration, run.lockdown) =~= before.subrange(
                run.enumeration,
                run.lockdown,
            ));
            assert(exchanges.subrange(run.lockdown, run.consoles) =~= before.subrange(
                run.lockdown,
                run.consoles,
            ));
            assert(exchanges.subrange(run.consoles, run.hotkey) =~= before.subrange(
                run.consoles,
                run.hotkey,
            ));
            assert(exchanges.subrange(run.hotkey, run.ready) =~= before.subrange(
                run.hotkey,
                run.ready,
            ));
            assert(exchanges.skip(run.ready) =~= firmware.since(ready));
            assert(firmware.since(ready).drop_last() =~= tried.since(ready));
            assert(runs(*boot_options, image_handle, exchanges, Conclusion::Wait, run));
            lemma_writes_of_run(*boot_options, image_handle, exchanges, Conclusion::Wait, run);
        }
        Conclusion::Wait
    }
}

/// What each phase asks of the firmware.
pub proof fn lemma_kinds_of_calls(
    config: BootConfig,
    image_handle: Option<Handle>,
    exchanges: Seq<Exchange>,
    conclusion: Conclusion,
    run: Run,
    i: int,
)
    requires
        runs(config, image_handle, exchanges, conclusion, run),
        0 <= i < exchanges.len(),
    ensures
        exchanges[i] is SetVariable ==> run.enumerated is Ok && run.locked_down is Ok
            && run.lockdown <= i < run.consoles,
        exchanges[i] is LoadImage ==> run.enumerated is Ok && run.locked_down is Ok
            && run.signalled is Ok && image_handle is Some && run.ready <= i,
{
    if i < run.enumeration {
        connect::lemma_enumeration_only_lists_and_connects(
            0,
            connect::MAX_PASSES as nat,
            exchanges.take(run.enumeration),
            run.enumerated,
            i,
        );
    } else if run.enumerated is Ok {
        if i < run.lockdown {
            let part = exchanges.subrange(run.enumeration, run.lockdown);
            assert(part[i - run.enumeration] == exchanges[i]);
        } else if run.locked_down is Ok {
            if i < run.consoles {
                let part = exchanges.subrange(run.lockdown, run.consoles);
                console::lemma_discovery_only_concerns_consoles(part, i - run.lockdown);
            } else if i < run.hotkey {
                let part = exchanges.subrange(run.consoles, run.hotkey);
                let k = i - run.consoles;
                assert(part[k] == exchanges[i]);
                if k > 0 {
                    assert(part.skip(1)[k - 1] == part[k]);
                }
            } else if i < run.ready {
                let part = exchanges.subrange(run.hotkey, run.ready);
                assert(part[i - run.hotkey] == exchanges[i]);
            } else if run.signalled is Ok && image_handle is Some {
                let part = exchanges.skip(run.ready);
                let k = i - run.ready;
                assert(part[k] == exchanges[i]);
                if k < part.len() - 1 {
                    boot::lemma_attempts_only_concern_boot(
                        image_handle->Some_0,
                        config.selected_paths(run.hotkey_pressed),
                        part.drop_last(),
                        k,
                    );
                    assert(part.drop_last()[k] == part[k]);
                }
            }
        }
    }
}

/// Variables are written while consoles are discovered, and at no other time.
proof fn lemma_writes_of_run(
    config: BootConfig,
    image_handle: Option<Handle>,
    exchanges: Seq<Exchange>,
    conclusion: Conclusion,
    run: Run,
)
    requires
        runs(config, image_handle, exchanges, conclusion, run),
    ensures
        firmware::writes(exchanges) == if run.enumerated is Ok && run.locked_down is Ok {
            firmware::writes(exchanges.subrange(run.lockdown, run.consoles))
        } else {
            Seq::empty()
        },
{
    assert forall|i: int| 0 <= i < exchanges.len() && #[trigger] exchanges[i] is SetVariable implies
        run.enumerated is Ok && run.locked_down is Ok && run.lockdown <= i < run.consoles by {
        lemma_kinds_of_calls(config, image_handle, exchanges, conclusion, run, i);
    }
    if run.enumerated is Ok && run.locked_down is Ok {
        firmware::lemma_parts_within(exchanges, run.lockdown, run.consoles);
    } else {
        firmware::lemma_parts_empty(exchanges);
    }
}

/// Nothing is booted unless every phase ahead of the boot succeeded and there is an image to load
/// boot images on behalf of.
pub proof fn boot_needs_preparation(
    config: BootConfig,
    image_handle: Option<Handle>,
    exchanges: Seq<Exchange>,
    conclusion: Conclusion,
    run: Run,
    loaded: int,
)
    requires
        runs(config, image_handle, exchanges, conclusion, run),
        0 <= loaded < exchanges.len(),
        exchanges[loaded] is LoadImage,
    ensures
        run.enumerated is Ok,
        run.locked_down is Ok,
        run.signalled is Ok,
        image_handle is Some,
        run.enumeration < run.hotkey < run.ready <= loaded,
        exchanges[run.enumeration] matches Exchange::CreateEvent { group, .. } && group
            == guid::spec_end_of_dxe_guid(),
        exchanges[run.hotkey] matches Exchange::CreateEvent { group, .. } && group
            == guid::spec_ready_to_boot_guid(),
{
    lemma_kinds_of_calls(config, image_handle, exchanges, conclusion, run, loaded);
    let end_of_dxe = exchanges.subrange(run.enumeration, run.lockdown);
    let ready_to_boot = exchanges.subrange(run.hotkey, run.ready);
    assert(end_of_dxe[0] == exchanges[run.enumeration]);
    assert(ready_to_boot[0] == exchanges[run.hotkey]);
}

} // verus!
