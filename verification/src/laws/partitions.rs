//! Laws of the write protection of boot partitions.
use vstd::prelude::*;

use crate::device_path::node::NodeView;
use crate::error;
use crate::error::EfiError;
use crate::firmware::{Exchange, Handle, Interface, Search};
use crate::partition;
use crate::partition::nvme_pass_thru::{Command, Completion};

verus! {

/// What a controller makes of a command is in the last dword of its completion: the status field
/// behind the command identifier and the phase tag, all fifteen bits of it.
pub proof fn status_field_is_behind_the_phase_tag(completion: Completion)
    ensures
        completion.spec_status_field() == completion.dw3 / 0x2_0000,
        completion.spec_status_field() == 0 <==> completion.dw3 < 0x2_0000,
{
}

/// The lock command is Set Features on the admin queue, for the boot partition write protection
/// feature, with the value that locks both boot partitions until the next power cycle. It is sent
/// for no namespace, moves no data, and has one second to complete.
pub proof fn lock_command_is_set_features(exchange: Exchange, interface: Interface)
    ensures
        partition::sends_lock(exchange, interface) <==> (exchange matches Exchange::NvmePassThru {
            protocol,
            namespace_id,
            packet,
            ..
        } && {
            &&& protocol == interface
            &&& namespace_id == 0
            &&& packet.command_timeout == 10_000_000
            &&& packet.transfer_length == 0
            &&& packet.metadata_length == 0
            &&& packet.queue_type == 0
            &&& packet.nvme_cmd.cdw0 == 0x09
            &&& packet.nvme_cmd.flags == 0x04 + 0x08
            &&& packet.nvme_cmd.nsid == 0
            &&& packet.nvme_cmd.cdw2 == 0
            &&& packet.nvme_cmd.cdw3 == 0
            &&& packet.nvme_cmd.cdw10 == 0x11
            &&& packet.nvme_cmd.cdw11 == 0x09
            &&& packet.nvme_cmd.cdw12 == 0
            &&& packet.nvme_cmd.cdw13 == 0
            &&& packet.nvme_cmd.cdw14 == 0
            &&& packet.nvme_cmd.cdw15 == 0
        }),
{
}

/// A command that asks for nothing is zero all over.
pub proof fn zero_command_is_zero(command: Command)
    ensures
        command == Command::spec_zero() <==> {
            &&& command.cdw0 == 0 && command.flags == 0 && command.nsid == 0
            &&& command.cdw2 == 0 && command.cdw3 == 0
            &&& command.cdw10 == 0 && command.cdw11 == 0 && command.cdw12 == 0
            &&& command.cdw13 == 0 && command.cdw14 == 0 && command.cdw15 == 0
        },
{
}

/// A lock holds only where the driver reports success and the controller's status field is zero.
/// What the driver reports otherwise is the failure; any other status field is a device error.
pub proof fn lock_holds_only_if_acknowledged(exchange: Exchange)
    ensures
        ({
            let (status, completion) = exchange->NvmePassThru_reply;
            let outcome = partition::lock_outcome(exchange);
            &&& outcome is Ok <==> status == 0 && completion.dw3 < 0x2_0000
            &&& status != 0 ==> outcome is Err && outcome->Err_0 == error::error_of(status)
            &&& status == 0 && completion.dw3 >= 0x2_0000 ==> outcome is Err && outcome->Err_0
                == EfiError::DeviceError
        }),
{
}

/// A partition is locked only where the path leads to a controller, the controller has the
/// protocol, the driver reports success and the controller's status field is zero. Each step is
/// for what the step before gave, and the first that fails is the last and gives the outcome.
pub proof fn partition_is_locked_only_if_acknowledged(
    device_path: Seq<NodeView>,
    exchanges: Seq<Exchange>,
    outcome: Result<(), EfiError>,
)
    requires
        partition::locks_partition(device_path, exchanges, outcome),
    ensures
        ({
            let pass_thru = seq![
                0x12u8, 0x83, 0xc7, 0x52, 0xdc, 0x8e, 0x33, 0x42, 0x98, 0xf2, 0x1a, 0x1a, 0xa5,
                0xe3, 0x88, 0xa5,
            ];
            &&& 1 <= exchanges.len() <= 3
            &&& exchanges[0] matches Exchange::LocateDevicePath {
                protocol: sought,
                path,
                reply: located,
            }
            &&& sought == pass_thru
            &&& path == device_path
            &&& located matches Err(status) ==> exchanges.len() == 1 && outcome is Err
                && outcome->Err_0 == error::error_of(status)
            &&& located matches Ok(controller) ==> {
                &&& exchanges.len() > 1
                &&& exchanges[1] matches Exchange::HandleProtocol {
                    handle,
                    protocol: asked,
                    reply: opened,
                }
                &&& handle == controller
                &&& asked == pass_thru
                &&& opened matches Err(status) ==> exchanges.len() == 2 && outcome is Err
                    && outcome->Err_0 == error::error_of(status)
                &&& opened matches Ok(interface) ==> {
                    &&& exchanges.len() == 3
                    &&& exchanges[2] matches Exchange::NvmePassThru {
                        protocol,
                        reply: (status, completion),
                        ..
                    }
                    &&& protocol == interface
                    &&& partition::sends_lock(exchanges[2], interface)
                    &&& outcome is Ok <==> status == 0 && completion.dw3 < 0x2_0000
                    &&& status != 0 ==> outcome is Err && outcome->Err_0 == error::error_of(
                        status,
                    )
                    &&& status == 0 && completion.dw3 >= 0x2_0000 ==> outcome is Err
                        && outcome->Err_0 == EfiError::DeviceError
                }
            }
        }),
{
    super::identifiers::guids_have_their_bytes();
}

/// Every controller is asked for its interface, once and in order, whatever came of those before.
pub proof fn every_controller_is_asked_once(controllers: Seq<Handle>, exchanges: Seq<Exchange>)
    requires
        partition::locks_each(controllers, exchanges),
    ensures
        ({
            let asked = exchanges.filter(|exchange: Exchange| exchange is HandleProtocol);
            &&& asked.len() == controllers.len()
            &&& forall|k: int|
                0 <= k < controllers.len() ==> (#[trigger] asked[k])->HandleProtocol_handle
                    == controllers[k]
        }),
    decreases controllers.len(),
{
    let select = |exchange: Exchange| exchange is HandleProtocol;
    if controllers.len() == 0 {
        reveal(Seq::filter);
    } else {
        let step: int = if exchanges[0]->HandleProtocol_reply is Ok {
            2
        } else {
            1
        };
        let first = exchanges.take(step);
        let rest = exchanges.skip(step);
        let later = controllers.skip(1);
        assert(partition::locks_each(later, rest));
        every_controller_is_asked_once(later, rest);
        assert(exchanges =~= first + rest);
        Seq::filter_distributes_over_add(first, rest, select);
        assert(first.filter(select) =~= seq![exchanges[0]]) by {
            reveal(Seq::filter);
            let one = exchanges.take(1);
            assert(one.drop_last().filter(select) =~= Seq::<Exchange>::empty());
            assert(one.filter(select) =~= seq![exchanges[0]]);
            if step == 2 {
                assert(first.drop_last() =~= one);
            }
        }
        let asked = exchanges.filter(select);
        let asked_later = rest.filter(select);
        assert(asked =~= seq![exchanges[0]] + asked_later);
        assert forall|k: int| 0 <= k < controllers.len() implies (
        #[trigger] asked[k])->HandleProtocol_handle == controllers[k] by {
            if k > 0 {
                assert(asked[k] == asked_later[k - 1]);
            }
        }
    }
}

/// Wherever a controller's interface is found, the lock command goes to it next; and nothing else
/// happens but asking for interfaces.
pub proof fn every_interface_is_sent_the_lock(
    controllers: Seq<Handle>,
    exchanges: Seq<Exchange>,
    i: int,
)
    requires
        partition::locks_each(controllers, exchanges),
        0 <= i < exchanges.len(),
    ensures
        exchanges[i] is HandleProtocol || exchanges[i] is NvmePassThru,
        exchanges[i] matches Exchange::HandleProtocol { protocol, reply, .. } ==> protocol == seq![
            0x12u8, 0x83, 0xc7, 0x52, 0xdc, 0x8e, 0x33, 0x42, 0x98, 0xf2, 0x1a, 0x1a, 0xa5, 0xe3,
            0x88, 0xa5,
        ] && (reply matches Ok(interface) ==> i + 1 < exchanges.len() && partition::sends_lock(
            exchanges[i + 1],
            interface,
        )),
        exchanges[i] is NvmePassThru ==> i > 0 && (exchanges[i - 1] matches
            Exchange::HandleProtocol { reply, .. } && reply is Ok),
    decreases controllers.len(),
{
    super::identifiers::guids_have_their_bytes();
    let step: int = if exchanges[0]->HandleProtocol_reply is Ok {
        2
    } else {
        1
    };
    if i >= step {
        let rest = exchanges.skip(step);
        assert(partition::locks_each(controllers.skip(1), rest));
        every_interface_is_sent_the_lock(controllers.skip(1), rest, i - step);
        assert(exchanges[i] == rest[i - step]);
        if i + 1 < exchanges.len() {
            assert(exchanges[i + 1] == rest[i + 1 - step]);
        }
        if i > step {
            assert(exchanges[i - 1] == rest[i - 1 - step]);
        }
    }
}

/// All controllers are looked for once and then locked one after the other. It fails as the search
/// does, or where it finds none, and in no other way.
pub proof fn locking_all_fails_only_without_controllers(
    exchanges: Seq<Exchange>,
    outcome: Result<(), EfiError>,
)
    requires
        partition::locks_all(exchanges, outcome),
    ensures
        exchanges.len() > 0,
        exchanges[0] matches Exchange::LocateHandles { search, reply } && search
            == Search::ByProtocol(
            seq![
                0x12u8, 0x83, 0xc7, 0x52, 0xdc, 0x8e, 0x33, 0x42, 0x98, 0xf2, 0x1a, 0x1a, 0xa5,
                0xe3, 0x88, 0xa5,
            ],
        ) && match reply {
            Err(status) => exchanges.len() == 1 && outcome is Err && outcome->Err_0
                == error::error_of(status),
            Ok(controllers) => {
                &&& partition::locks_each(controllers, exchanges.skip(1))
                &&& controllers.len() > 0 ==> outcome is Ok
                &&& controllers.len() == 0 ==> outcome is Err && outcome->Err_0
                    == EfiError::NotFound
            },
        },
{
    super::identifiers::guids_have_their_bytes();
}

} // verus!
