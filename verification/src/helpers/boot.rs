//! Booting from a device path.
use vstd::prelude::*;

use super::expand;
use super::expand::{expand_device_path, is_partial_device_path};
use crate::config;
use crate::device_path::node::NodeView;
use crate::device_path::DevicePathBuf;
use crate::error;
use crate::error::EfiError;
use crate::firmware;
use crate::firmware::{BootServices, Exchange, Firmware, Handle};

verus! {

/// How long a boot image may run before the watchdog resets the system, in seconds.
pub const WATCHDOG_TIMEOUT_SECONDS: usize = 300;

/// The exchanges load and start the image at a full path, with that outcome. The image is started
/// only once the watchdog is armed, and the watchdog is disarmed when the image returns control.
pub open spec fn loads_and_starts(
    parent_handle: Handle,
    full_path: Seq<NodeView>,
    exchanges: Seq<Exchange>,
    outcome: Result<(), EfiError>,
) -> bool {
    &&& exchanges.len() > 0
    &&& exchanges[0] matches Exchange::LoadImage { boot_policy, parent, path, reply: loaded }
    &&& boot_policy
    &&& parent == parent_handle
    &&& path == full_path
    &&& match loaded {
        Err(status) => {
            &&& exchanges.len() == 1
            &&& outcome == Err::<(), EfiError>(error::error_of(status))
        },
        Ok(image_handle) => {
            &&& exchanges.len() > 1
            &&& exchanges[1] matches Exchange::SetWatchdogTimer { seconds, reply: armed }
            &&& seconds == WATCHDOG_TIMEOUT_SECONDS
            &&& match armed {
                Err(status) => {
                    &&& exchanges.len() == 2
                    &&& outcome == Err::<(), EfiError>(error::error_of(status))
                },
                Ok(_) => {
                    &&& exchanges.len() == 4
                    &&& exchanges[2] matches Exchange::StartImage { image, reply: started }
                    &&& image == image_handle
                    &&& exchanges[3] matches Exchange::SetWatchdogTimer { seconds: disarmed, .. }
                    &&& disarmed == 0
                    &&& outcome == match started {
                        Ok(_) => Ok::<(), EfiError>(()),
                        Err(status) => Err(error::error_of(status)),
                    }
                },
            }
        },
    }
}

/// The first `expansion` exchanges expand the path; the others boot from the path that they gave.
/// Where there is none, nothing is loaded.
pub open spec fn expands_then_boots(
    parent_handle: Handle,
    device_path: Seq<NodeView>,
    exchanges: Seq<Exchange>,
    outcome: Result<(), EfiError>,
    expansion: int,
    expanded: Result<Seq<NodeView>, EfiError>,
) -> bool {
    &&& 0 <= expansion <= exchanges.len()
    &&& expand::expands(device_path, exchanges.take(expansion), expanded)
    &&& match expanded {
        Err(failure) => {
            &&& expansion == exchanges.len()
            &&& outcome == Err::<(), EfiError>(failure)
        },
        Ok(full_path) => loads_and_starts(
            parent_handle,
            full_path,
            exchanges.skip(expansion),
            outcome,
        ),
    }
}

/// The exchanges boot from the path, with that outcome. A short form is expanded first.
pub open spec fn boots(
    parent_handle: Handle,
    device_path: Seq<NodeView>,
    exchanges: Seq<Exchange>,
    outcome: Result<(), EfiError>,
) -> bool {
    if expand::is_partial(device_path) {
        exists|expansion: int, expanded: Result<Seq<NodeView>, EfiError>|
            expands_then_boots(
                parent_handle,
                device_path,
                exchanges,
                outcome,
                expansion,
                expanded,
            )
    } else {
        loads_and_starts(parent_handle, device_path, exchanges, outcome)
    }
}

/// Loads and starts the image at a full path.
fn load_and_start<B: BootServices>(
    firmware: &mut Firmware<B>,
    parent_handle: Handle,
    full_path: &DevicePathBuf,
) -> (outcome: Result<(), EfiError>)
    ensures
        final(firmware).follows(*old(firmware)),
        loads_and_starts(
            parent_handle,
            full_path@,
            final(firmware).since(*old(firmware)),
            outcome,
        ),
{
    let image_handle = match firmware.load_image(true, parent_handle, full_path) {
        Ok(image_handle) => image_handle,
        Err(status) => {
            return Err(EfiError::from_status(status));
        },
    };
    if let Err(status) = firmware.set_watchdog_timer(WATCHDOG_TIMEOUT_SECONDS) {
        return Err(EfiError::from_status(status));
    }
    let started = firmware.start_image(image_handle);
    let _ = firmware.set_watchdog_timer(0);
    match started {
        Ok(()) => Ok(()),
        Err(status) => Err(EfiError::from_status(status)),
    }
}

/// Loads and starts a boot image. `Ok` where the image was started and has returned control.
///
/// A short-form path is expanded first. The watchdog runs while the image does.
pub fn boot_from_device_path<B: BootServices>(
    firmware: &mut Firmware<B>,
    parent_handle: Handle,
    device_path: &DevicePathBuf,
) -> (outcome: Result<(), EfiError>)
    ensures
        final(firmware).follows(*old(firmware)),
        boots(parent_handle, device_path@, final(firmware).since(*old(firmware)), outcome),
{
    if !is_partial_device_path(device_path) {
        return load_and_start(firmware, parent_handle, device_path);
    }
    let ghost start = *firmware;
    let expanded = expand_device_path(firmware, device_path);
    let ghost middle = *firmware;
    let ghost expansion = firmware.since(start).len() as int;
    match expanded {
        Err(failure) => {
            proof {
                let exchanges = firmware.since(start);
                assert(exchanges.take(expansion) =~= exchanges);
                assert(expands_then_boots(
                    parent_handle,
                    device_path@,
                    exchanges,
                    Err(failure),
                    expansion,
                    Err(failure),
                ));
            }
            Err(failure)
        },
        Ok(full_path) => {
            let outcome = load_and_start(firmware, parent_handle, &full_path);
            proof {
                firmware::lemma_since_transitive(start, middle, *firmware);
                let exchanges = firmware.since(start);
                assert(exchanges.take(expansion) =~= middle.since(start));
                assert(exchanges.skip(expansion) =~= firmware.since(middle));
                assert(expands_then_boots(
                    parent_handle,
                    device_path@,
                    exchanges,
                    outcome,
                    expansion,
                    Ok(full_path@),
                ));
            }
            outcome
        },
    }
}

/// The exchanges from `start` to `end` boot from the path, with some outcome.
pub open spec fn attempts(
    parent_handle: Handle,
    device_path: Seq<NodeView>,
    exchanges: Seq<Exchange>,
    start: int,
    end: int,
) -> bool {
    &&& 0 <= start <= end <= exchanges.len()
    &&& exists|outcome: Result<(), EfiError>|
        boots(parent_handle, device_path, exchanges.subrange(start, end), outcome)
}

/// The exchanges from `ends[i]` to `ends[i + 1]` boot from the device `i`, for each of the devices,
/// and there are no others.
pub open spec fn attempts_between(
    parent_handle: Handle,
    devices: Seq<Seq<NodeView>>,
    exchanges: Seq<Exchange>,
    ends: Seq<int>,
) -> bool {
    &&& ends.len() == devices.len() + 1
    &&& ends[0] == 0
    &&& ends.last() == exchanges.len()
    &&& forall|i: int|
        0 <= i < devices.len() ==> attempts(
            parent_handle,
            #[trigger] devices[i],
            exchanges,
            ends[i],
            ends[i + 1],
        )
}

/// The exchanges boot from each of the devices in order, whatever comes of those before.
pub open spec fn attempts_each(
    parent_handle: Handle,
    devices: Seq<Seq<NodeView>>,
    exchanges: Seq<Exchange>,
) -> bool {
    exists|ends: Seq<int>| attempts_between(parent_handle, devices, exchanges, ends)
}

/// Boots from each of the devices in order. A device that cannot be booted from, and one whose
/// image returns control, gives way to the next.
pub fn boot_from_each<B: BootServices>(
    firmware: &mut Firmware<B>,
    parent_handle: Handle,
    devices: &Vec<DevicePathBuf>,
)
    ensures
        final(firmware).follows(*old(firmware)),
        attempts_each(
            parent_handle,
            config::paths_view(devices@),
            final(firmware).since(*old(firmware)),
        ),
{
    let ghost start = *firmware;
    let ghost paths = config::paths_view(devices@);
    let ghost mut ends: Seq<int> = seq![0int];
    let mut i: usize = 0;
    assert(firmware.since(start) =~= Seq::<Exchange>::empty());
    while i < devices.len()
        invariant
            i <= devices@.len(),
            start == *old(firmware),
            paths == config::paths_view(devices@),
            firmware.follows(start),
            attempts_between(
                parent_handle,
                paths.take(i as int),
                firmware.since(start),
                ends,
            ),
        decreases devices@.len() - i,
    {
        let ghost before = *firmware;
        let outcome = boot_from_device_path(firmware, parent_handle, &devices[i]);
        proof {
            firmware::lemma_since_transitive(start, before, *firmware);
            let exchanges = firmware.since(start);
            let done = before.since(start);
            let later = ends.push(exchanges.len() as int);
            assert(boots(parent_handle, paths[i as int], firmware.since(before), outcome));
            assert forall|k: int| 0 <= k < i + 1 implies attempts(
                parent_handle,
                #[trigger] paths.take(i + 1)[k],
                exchanges,
                later[k],
                later[k + 1],
            ) by {
                if k < i {
                    assert(paths.take(i as int)[k] == paths[k]);
                    assert(exchanges.subrange(later[k], later[k + 1]) =~= done.subrange(
                        ends[k],
                        ends[k + 1],
                    ));
                } else {
                    assert(exchanges.subrange(later[k], later[k + 1]) =~= firmware.since(before));
                }
            }
            ends = later;
        }
        i += 1;
    }
    assert(paths.take(i as int) =~= paths);
}

/// The kinds of calls that booting makes.
pub open spec fn concerns_boot(exchange: Exchange) -> bool {
    ||| exchange is LocateHandles
    ||| exchange is DevicePath
    ||| exchange is LoadImage
    ||| exchange is SetWatchdogTimer
    ||| exchange is StartImage
}

proof fn lemma_boot_only_concerns_boot(
    parent_handle: Handle,
    device_path: Seq<NodeView>,
    exchanges: Seq<Exchange>,
    outcome: Result<(), EfiError>,
    i: int,
)
    requires
        boots(parent_handle, device_path, exchanges, outcome),
        0 <= i < exchanges.len(),
    ensures
        concerns_boot(exchanges[i]),
{
    if expand::is_partial(device_path) {
        let (expansion, expanded) = choose|
            expansion: int,
            expanded: Result<Seq<NodeView>, EfiError>,
        |
            expands_then_boots(
                parent_handle,
                device_path,
                exchanges,
                outcome,
                expansion,
                expanded,
            );
        expand::lemma_expansion_only_looks(device_path, exchanges.take(expansion), expanded);
        if i < expansion {
            assert(exchanges.take(expansion)[i] == exchanges[i]);
        } else {
            assert(exchanges.skip(expansion)[i - expansion] == exchanges[i]);
        }
    }
}

/// Attempts to boot load and start images, and look at handles to find them, and nothing else.
pub proof fn lemma_attempts_only_concern_boot(
    parent_handle: Handle,
    devices: Seq<Seq<NodeView>>,
    exchanges: Seq<Exchange>,
    i: int,
)
    requires
        attempts_each(parent_handle, devices, exchanges),
        0 <= i < exchanges.len(),
    ensures
        concerns_boot(exchanges[i]),
{
    let ends = choose|ends: Seq<int>|
        attempts_between(parent_handle, devices, exchanges, ends);
    let device = lemma_attempt_at(parent_handle, devices, exchanges, ends, i, 0);
    lemma_attempt_only_concerns_boot(
        parent_handle,
        devices[device],
        exchanges,
        ends[device],
        ends[device + 1],
        i,
    );
}

/// An attempt to boot loads and starts an image, and looks at handles to find it, and nothing else.
pub proof fn lemma_attempt_only_concerns_boot(
    parent_handle: Handle,
    device_path: Seq<NodeView>,
    exchanges: Seq<Exchange>,
    start: int,
    end: int,
    i: int,
)
    requires
        attempts(parent_handle, device_path, exchanges, start, end),
        start <= i < end,
    ensures
        concerns_boot(exchanges[i]),
{
    let part = exchanges.subrange(start, end);
    let outcome = choose|outcome: Result<(), EfiError>|
        boots(parent_handle, device_path, part, outcome);
    lemma_boot_only_concerns_boot(parent_handle, device_path, part, outcome, i - start);
}

/// Every exchange belongs to an attempt.
proof fn lemma_attempt_at(
    parent_handle: Handle,
    devices: Seq<Seq<NodeView>>,
    exchanges: Seq<Exchange>,
    ends: Seq<int>,
    i: int,
    from: int,
) -> (device: int)
    requires
        attempts_between(parent_handle, devices, exchanges, ends),
        0 <= from <= devices.len(),
        ends[from] <= i < exchanges.len(),
    ensures
        0 <= device < devices.len(),
        ends[device] <= i < ends[device + 1],
    decreases devices.len() - from,
{
    assert(from < devices.len());
    assert(attempts(parent_handle, devices[from], exchanges, ends[from], ends[from + 1]));
    if i < ends[from + 1] {
        from
    } else {
        lemma_attempt_at(parent_handle, devices, exchanges, ends, i, from + 1)
    }
}

/// The watchdog runs exactly while an image does: each start of an image comes right after the
/// watchdog was armed with success, and right before it is disarmed.
pub proof fn watchdog_guards_image(
    parent_handle: Handle,
    device_path: Seq<NodeView>,
    exchanges: Seq<Exchange>,
    outcome: Result<(), EfiError>,
    started: int,
)
    requires
        boots(parent_handle, device_path, exchanges, outcome),
        0 <= started < exchanges.len(),
        exchanges[started] is StartImage,
    ensures
        0 < started < exchanges.len() - 1,
        exchanges[started - 1] matches Exchange::SetWatchdogTimer { seconds, reply } && seconds
            == WATCHDOG_TIMEOUT_SECONDS && reply is Ok,
        exchanges[started + 1] matches Exchange::SetWatchdogTimer { seconds, .. } && seconds == 0,
{
    if expand::is_partial(device_path) {
        let (expansion, expanded) = choose|
            expansion: int,
            expanded: Result<Seq<NodeView>, EfiError>,
        |
            expands_then_boots(
                parent_handle,
                device_path,
                exchanges,
                outcome,
                expansion,
                expanded,
            );
        expand::lemma_expansion_only_looks(device_path, exchanges.take(expansion), expanded);
        if started < expansion {
            assert(exchanges.take(expansion)[started] is StartImage);
        } else {
            let rest = exchanges.skip(expansion);
            assert(rest[started - expansion] is StartImage);
            assert(rest[1] == exchanges[expansion + 1]);
            assert(rest[3] == exchanges[expansion + 3]);
        }
    }
}

/// An image is reported as started only where the firmware says that it was: success means that
/// the last but one exchange started an image with success.
pub proof fn success_means_image_ran(
    parent_handle: Handle,
    device_path: Seq<NodeView>,
    exchanges: Seq<Exchange>,
    outcome: Result<(), EfiError>,
)
    requires
        boots(parent_handle, device_path, exchanges, outcome),
    ensures
        outcome is Ok <==> exchanges.len() >= 4 && (exchanges[exchanges.len() - 2] matches
            Exchange::StartImage { reply, .. } && reply is Ok),
{
    if expand::is_partial(device_path) {
        let (expansion, expanded) = choose|
            expansion: int,
            expanded: Result<Seq<NodeView>, EfiError>,
        |
            expands_then_boots(
                parent_handle,
                device_path,
                exchanges,
                outcome,
                expansion,
                expanded,
            );
        expand::lemma_expansion_only_looks(device_path, exchanges.take(expansion), expanded);
        let looks = exchanges.take(expansion);
        let rest = exchanges.skip(expansion);
        if exchanges.len() >= 4 {
            let i = exchanges.len() - 2;
            assert(exchanges[i] == if i < expansion { looks[i] } else { rest[i - expansion] });
        }
    }
}

} // verus!
