//! Laws of the record of calls.
use vstd::prelude::*;

use crate::boot_storage::BootStorageService;
use crate::config;
use crate::config::{BootConfig, FailureHandler};
use crate::device_path::DevicePathBuf;
use crate::error::Status;
use crate::firmware;
use crate::firmware::{BootServices, Exchange, Firmware, Handle, HandleSearch, InputKey, Search};
use crate::guid::Guid;

verus! {

/// A reply stands in the record as it came: with everything in it, or with its status.
pub proof fn replies_are_recorded_whole(
    handles: Vec<Handle>,
    bytes: Vec<u8>,
    keys: Vec<InputKey>,
    status: Status,
)
    ensures
        firmware::handles_view(Ok(handles)) == Ok::<Seq<Handle>, Status>(handles@),
        firmware::handles_view(Err(status)) == Err::<Seq<Handle>, Status>(status),
        firmware::bytes_view(Ok(bytes)) == Ok::<Seq<u8>, Status>(bytes@),
        firmware::bytes_view(Err(status)) == Err::<Seq<u8>, Status>(status),
        firmware::keys_view(Ok(keys)) == Ok::<Seq<InputKey>, Status>(keys@),
        firmware::keys_view(Err(status)) == Err::<Seq<InputKey>, Status>(status),
{
}

/// What a call is given stands in the record as it was given.
pub proof fn arguments_are_recorded_whole(protocol: Guid, path: DevicePathBuf)
    ensures
        HandleSearch::AllHandles@ == Search::AllHandles,
        HandleSearch::ByProtocol(protocol)@ == Search::ByProtocol(protocol@),
        firmware::path_view(None) is None,
        firmware::path_view(Some(path)) == Some(path@),
{
}

/// A list of paths stands for just as many paths, each with all its nodes.
pub proof fn every_path_is_seen(paths: Seq<DevicePathBuf>, i: int)
    requires
        0 <= i < paths.len(),
    ensures
        config::paths_view(paths).len() == paths.len(),
        config::paths_view(paths)[i] == paths[i]@,
{
}

/// The hotkey devices are selected where the hotkey was pressed, and the boot devices where not;
/// all of them, whatever they are.
pub proof fn hotkey_selects_devices(config: BootConfig)
    ensures
        config.selected_paths(true) == config.hotkey_device_paths(),
        config.selected_paths(false) == config.device_paths(),
{
}

/// A closure is a failure handler that does what the closure does, wherever it can be called.
pub proof fn closures_handle_failures<F: Fn() + Send + Sync>(handler: F)
    ensures
        handler.callable() <==> call_requires(handler, ()),
        handler.called() <==> call_ensures(handler, (), ()),
{
}

/// Every call is one to the boot services, but for writes of variables, dispatches of drivers, locks
/// of the boot partition and the handling of a failure.
pub proof fn calls_are_told_by_service(exchange: Exchange)
    ensures
        exchange.calls_boot_services() <==> !(exchange is SetVariable) && !(exchange is Dispatch)
            && !(exchange is LockBootPartition) && !(exchange is HandleFailure),
        exchange.enumerates_devices() <==> exchange is LocateHandles || exchange is
            ConnectController || exchange is DevicePath || exchange is HandleProtocol || exchange is
            LocateDevicePath,
{
}

/// What each service was asked for is in the record, all of it and in order.
pub proof fn services_share_the_record(exchanges: Seq<Exchange>)
    ensures
        firmware::writes(exchanges) == exchanges.filter(
            |exchange: Exchange| exchange is SetVariable,
        ),
        firmware::dispatches(exchanges) == exchanges.filter(
            |exchange: Exchange| exchange is Dispatch,
        ),
        firmware::locks(exchanges) == exchanges.filter(
            |exchange: Exchange| exchange is LockBootPartition,
        ),
        firmware::boot_calls(exchanges) == exchanges.filter(
            |exchange: Exchange|
                !(exchange is SetVariable || exchange is Dispatch || exchange is LockBootPartition
                    || exchange is HandleFailure),
        ),
        firmware::only_boot_services(exchanges) <==> forall|i: int|
            0 <= i < exchanges.len() ==> !(#[trigger] exchanges[i] is SetVariable
                || exchanges[i] is Dispatch || exchanges[i] is LockBootPartition
                || exchanges[i] is HandleFailure),
    decreases exchanges.len(),
{
    reveal(Seq::filter);
    if exchanges.len() > 0 {
        services_share_the_record(exchanges.drop_last());
    }
    if firmware::only_boot_services(exchanges) {
        assert forall|i: int| 0 <= i < exchanges.len() implies !(#[trigger] exchanges[i] is
            SetVariable || exchanges[i] is Dispatch || exchanges[i] is LockBootPartition
            || exchanges[i] is HandleFailure) by {
            assert(exchanges[i].calls_boot_services());
        }
    }
}

/// A record that follows another starts with it, and what came since is all that is behind it.
pub proof fn record_only_grows<B: BootServices>(earlier: Firmware<B>, later: Firmware<B>)
    requires
        later.follows(earlier),
    ensures
        later.history() == earlier.history() + later.since(earlier),
        later.asked_before() == earlier.asked_before(),
        earlier.faithful() ==> later.faithful(),
{
    assert(later.history() =~= earlier.history() + later.since(earlier));
}

/// One more call is one more exchange at the end of the record.
pub proof fn call_is_recorded_last<B: BootServices>(
    earlier: Firmware<B>,
    later: Firmware<B>,
    exchange: Exchange,
)
    requires
        later.records(earlier, exchange),
    ensures
        later.history() == earlier.history().push(exchange),
        later.follows(earlier),
        later.since(earlier) == seq![exchange],
{
    assert(later.since(earlier) =~= seq![exchange]);
}

/// A storage service that is there was asked for what it was asked for, and one that is not there
/// for nothing.
pub proof fn missing_storage_is_never_locked<S: BootStorageService>(boot_storage: S)
    ensures
        firmware::locked_by(Some(boot_storage)) == boot_storage.locked(),
        firmware::locked_by(None::<S>) == Seq::<Exchange>::empty(),
{
}

} // verus!
