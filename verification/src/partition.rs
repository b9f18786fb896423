//! Write protection of boot partitions.
//!
//! For platforms with boot flows of their own. A partition is named by its device path; the
//! commands go through the protocols of the storage stack of the platform.
use vstd::prelude::*;

use crate::device_path::node::NodeView;
use crate::device_path::DevicePathBuf;
use crate::error;
use crate::error::EfiError;
use crate::firmware;
use crate::firmware::{
    BootServices, Exchange, Firmware, Handle, HandleSearch, Interface, Search,
};
use crate::guid;
use crate::guid::Guid;
use nvme_pass_thru::{
    Command, CommandPacket, BPWPS_LOCK_BP0_BP1, CMD_FLAG_CDW10_VALID, CMD_FLAG_CDW11_VALID,
    FID_BOOT_PARTITION_WRITE_PROTECTION, OPCODE_SET_FEATURES, QUEUE_TYPE_ADMIN, TIMEOUT_NS_1_SEC,
};

pub mod nvme_pass_thru;

verus! {

/// The command that write-protects both boot partitions until the next power cycle: the Set
/// Features admin command for boot partition write protection.
pub open spec fn lock_packet() -> CommandPacket {
    CommandPacket {
        command_timeout: TIMEOUT_NS_1_SEC,
        transfer_length: 0,
        metadata_length: 0,
        queue_type: QUEUE_TYPE_ADMIN,
        nvme_cmd: Command {
            cdw0: OPCODE_SET_FEATURES as u32,
            flags: (CMD_FLAG_CDW10_VALID + CMD_FLAG_CDW11_VALID) as u8,
            cdw10: FID_BOOT_PARTITION_WRITE_PROTECTION as u32,
            cdw11: BPWPS_LOCK_BP0_BP1,
            ..Command::spec_zero()
        },
    }
}

/// The exchange sends the lock command to the controller behind an interface.
pub open spec fn sends_lock(exchange: Exchange, interface: Interface) -> bool {
    exchange matches Exchange::NvmePassThru { protocol, namespace_id, packet, .. } && protocol
        == interface && namespace_id == 0 && packet == lock_packet()
}

/// What comes of the lock command: the driver has to pass it on, and the controller to accept it.
pub open spec fn lock_outcome(exchange: Exchange) -> Result<(), EfiError> {
    let (status, completion) = exchange->NvmePassThru_reply;
    if status != 0 {
        Err(error::error_of(status))
    } else if completion.spec_status_field() != 0 {
        Err(EfiError::DeviceError)
    } else {
        Ok(())
    }
}

/// The exchange asks a handle for the interface of its NVMe Pass-Thru protocol.
pub open spec fn asks_for_interface(exchange: Exchange, controller: Handle) -> bool {
    exchange matches Exchange::HandleProtocol { handle, protocol, .. } && handle == controller
        && protocol == guid::spec_nvme_pass_thru_guid()
}

/// The exchanges lock the boot partitions of the controller that the path leads to, with that
/// outcome.
pub open spec fn locks_partition(
    device_path: Seq<NodeView>,
    exchanges: Seq<Exchange>,
    outcome: Result<(), EfiError>,
) -> bool {
    &&& exchanges.len() > 0
    &&& exchanges[0] matches Exchange::LocateDevicePath { protocol, path, reply: located }
    &&& protocol == guid::spec_nvme_pass_thru_guid()
    &&& path == device_path
    &&& match located {
        Err(status) => {
            &&& exchanges.len() == 1
            &&& outcome == Err::<(), EfiError>(error::error_of(status))
        },
        Ok(controller) => {
            &&& exchanges.len() > 1
            &&& asks_for_interface(exchanges[1], controller)
            &&& match exchanges[1]->HandleProtocol_reply {
                Err(status) => {
                    &&& exchanges.len() == 2
                    &&& outcome == Err::<(), EfiError>(error::error_of(status))
                },
                Ok(interface) => {
                    &&& exchanges.len() == 3
                    &&& sends_lock(exchanges[2], interface)
                    &&& outcome == lock_outcome(exchanges[2])
                },
            }
        },
    }
}

/// The exchanges lock the boot partitions of the controllers, one after the other. A controller
/// without an interface is passed over, and one that rejects the command does not end the attempt.
pub open spec fn locks_each(controllers: Seq<Handle>, exchanges: Seq<Exchange>) -> bool
    decreases controllers.len(),
{
    if controllers.len() == 0 {
        exchanges.len() == 0
    } else {
        &&& exchanges.len() > 0
        &&& asks_for_interface(exchanges[0], controllers[0])
        &&& match exchanges[0]->HandleProtocol_reply {
            Err(_) => locks_each(controllers.skip(1), exchanges.skip(1)),
            Ok(interface) => {
                &&& exchanges.len() > 1
                &&& sends_lock(exchanges[1], interface)
                &&& locks_each(controllers.skip(1), exchanges.skip(2))
            },
        }
    }
}

/// The exchanges lock the boot partitions of every NVMe controller, with that outcome. It is a
/// success where there is a controller, whatever came of its lock.
pub open spec fn locks_all(exchanges: Seq<Exchange>, outcome: Result<(), EfiError>) -> bool {
    &&& exchanges.len() > 0
    &&& exchanges[0] matches Exchange::LocateHandles { search, reply }
    &&& search == Search::ByProtocol(guid::spec_nvme_pass_thru_guid())
    &&& match reply {
        Err(status) => {
            &&& exchanges.len() == 1
            &&& outcome == Err::<(), EfiError>(error::error_of(status))
        },
        Ok(controllers) => {
            &&& locks_each(controllers, exchanges.skip(1))
            &&& outcome == if controllers.len() == 0 {
                Err::<(), EfiError>(EfiError::NotFound)
            } else {
                Ok(())
            }
        },
    }
}

/// Sends the lock command through the interface of a Pass-Thru protocol. `Ok` once the controller
/// has acknowledged it.
pub fn lock_partition_write_inner<B: BootServices>(
    firmware: &mut Firmware<B>,
    protocol: Interface,
) -> (outcome: Result<(), EfiError>)
    ensures
        final(firmware).follows(*old(firmware)),
        final(firmware).since(*old(firmware)).len() == 1,
        sends_lock(final(firmware).since(*old(firmware))[0], protocol),
        outcome == lock_outcome(final(firmware).since(*old(firmware))[0]),
{
    let mut nvme_cmd = Command::zero();
    nvme_cmd.cdw0 = OPCODE_SET_FEATURES as u32;
    nvme_cmd.flags = CMD_FLAG_CDW10_VALID | CMD_FLAG_CDW11_VALID;
    assert(0x04u8 | 0x08u8 == 0x0cu8) by (bit_vector);
    nvme_cmd.cdw10 = FID_BOOT_PARTITION_WRITE_PROTECTION as u32;
    nvme_cmd.cdw11 = BPWPS_LOCK_BP0_BP1;
    let packet = CommandPacket {
        command_timeout: TIMEOUT_NS_1_SEC,
        transfer_length: 0,
        metadata_length: 0,
        queue_type: QUEUE_TYPE_ADMIN,
        nvme_cmd,
    };
    let (status, completion) = firmware.nvme_pass_thru(protocol, 0, packet);
    if !error::is_success(status) {
        return Err(EfiError::from_status(status));
    }
    if completion.status_field() != 0 {
        return Err(EfiError::from_status(error::device_error()));
    }
    Ok(())
}

/// Write-protects the boot partitions of the NVMe controller that a device path leads to, until
/// the next power cycle or controller reset. The path may go on behind the controller, to a
/// namespace or a partition.
///
/// Fails where no Pass-Thru protocol can be reached on the path, and where the controller rejects
/// the command.
pub fn lock_partition_write<B: BootServices>(
    firmware: &mut Firmware<B>,
    device_path: &DevicePathBuf,
) -> (outcome: Result<(), EfiError>)
    ensures
        final(firmware).follows(*old(firmware)),
        locks_partition(device_path@, final(firmware).since(*old(firmware)), outcome),
{
    let ghost start = *firmware;
    let controller = match firmware.locate_device_path(Guid::nvme_pass_thru(), device_path) {
        Ok(controller) => controller,
        Err(status) => {
            return Err(EfiError::from_status(status));
        },
    };
    let protocol = match firmware.handle_protocol(controller, Guid::nvme_pass_thru()) {
        Ok(protocol) => protocol,
        Err(status) => {
            return Err(EfiError::from_status(status));
        },
    };
    let ghost resolved = *firmware;
    let outcome = lock_partition_write_inner(firmware, protocol);
    proof {
        firmware::lemma_since_transitive(start, resolved, *firmware);
        assert(firmware.since(start)[2] == firmware.since(resolved)[0]);
    }
    outcome
}

/// Write-protects the boot partitions of every NVMe controller until the next power cycle.
///
/// For platforms that boot from NVMe but have no device path to name the controller by. A
/// controller that cannot be locked is passed over. Fails only where there is no controller.
pub fn lock_nvme_boot_partitions<B: BootServices>(firmware: &mut Firmware<B>) -> (outcome: Result<
    (),
    EfiError,
>)
    ensures
        final(firmware).follows(*old(firmware)),
        locks_all(final(firmware).since(*old(firmware)), outcome),
{
    let ghost start = *firmware;
    let search = HandleSearch::ByProtocol(Guid::nvme_pass_thru());
    let controllers = match firmware.locate_handle_buffer(search) {
        Ok(controllers) => controllers,
        Err(status) => {
            return Err(EfiError::from_status(status));
        },
    };
    let ghost located = *firmware;
    let mut i: usize = 0;
    proof {
        assert(controllers@.skip(0) =~= controllers@);
        assert(forall|rest: Seq<Exchange>| #[trigger] (firmware.since(located) + rest) =~= rest);
    }
    while i < controllers.len()
        invariant
            i <= controllers@.len(),
            firmware.follows(located),
            forall|rest: Seq<Exchange>|
                locks_each(controllers@.skip(i as int), rest) ==> #[trigger] locks_each(
                    controllers@,
                    firmware.since(located) + rest,
                ),
        decreases controllers@.len() - i,
    {
        let ghost before = *firmware;
        let ghost left = controllers@.skip(i as int);
        let reply = firmware.handle_protocol(controllers[i], Guid::nvme_pass_thru());
        let ghost asked = *firmware;
        if let Ok(protocol) = reply {
            let _ = lock_partition_write_inner(firmware, protocol);
        }
        proof {
            firmware::lemma_since_transitive(located, before, *firmware);
            firmware::lemma_since_transitive(before, asked, *firmware);
            let step = firmware.since(before);
            assert(reply is Ok ==> step[1] == firmware.since(asked)[0]);
            assert(left.skip(1) =~= controllers@.skip(i + 1));
            assert forall|rest: Seq<Exchange>|
                locks_each(controllers@.skip(i + 1), rest) implies #[trigger] locks_each(
                controllers@,
                firmware.since(located) + rest,
            ) by {
                let all = step + rest;
                assert(all.skip(step.len() as int) =~= rest);
                assert(locks_each(left, all));
                assert(firmware.since(located) + rest =~= before.since(located) + all);
            }
        }
        i += 1;
    }
    proof {
        let none = Seq::<Exchange>::empty();
        assert(locks_each(controllers@.skip(i as int), none));
        assert(firmware.since(located) + none =~= firmware.since(located));
        firmware::lemma_since_transitive(start, located, *firmware);
        assert(firmware.since(start).skip(1) =~= firmware.since(located));
    }
    if controllers.len() == 0 {
        return Err(EfiError::NotFound);
    }
    Ok(())
}

/// Every controller is reached: its interface is asked for, and where it has one, the lock command
/// goes to it next, whatever came of the controllers before.
pub proof fn every_controller_is_reached(
    controllers: Seq<Handle>,
    exchanges: Seq<Exchange>,
    index: int,
)
    requires
        locks_each(controllers, exchanges),
        0 <= index < controllers.len(),
    ensures
        exists|i: int|
            #![trigger exchanges[i]]
            {
                &&& 0 <= i < exchanges.len()
                &&& asks_for_interface(exchanges[i], controllers[index])
                &&& exchanges[i]->HandleProtocol_reply matches Ok(interface) ==> i + 1
                    < exchanges.len() && sends_lock(exchanges[i + 1], interface)
            },
    decreases controllers.len(),
{
    if index == 0 {
        assert(asks_for_interface(exchanges[0], controllers[index]));
    } else {
        let step: int = if exchanges[0]->HandleProtocol_reply is Ok {
            2
        } else {
            1
        };
        let rest = exchanges.skip(step);
        let later = controllers.skip(1);
        every_controller_is_reached(later, rest, index - 1);
        let k = choose|k: int|
            #![trigger rest[k]]
            {
                &&& 0 <= k < rest.len()
                &&& asks_for_interface(rest[k], later[index - 1])
                &&& rest[k]->HandleProtocol_reply matches Ok(interface) ==> k + 1 < rest.len()
                    && sends_lock(rest[k + 1], interface)
            };
        assert(exchanges[k + step] == rest[k]);
        if k + 1 < rest.len() {
            assert(exchanges[k + 1 + step] == rest[k + 1]);
        }
    }
}

} // verus!
