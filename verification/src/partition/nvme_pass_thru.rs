//! Commands to an NVMe controller and what it answers.
use vstd::prelude::*;

verus! {

/// Admin command that sets a feature of the controller.
pub const OPCODE_SET_FEATURES: u8 = 0x09;

/// Feature that configures the write protection of the boot partitions.
pub const FID_BOOT_PARTITION_WRITE_PROTECTION: u8 = 0x11;

/// Flag bit that marks command dword 10 as valid.
pub const CMD_FLAG_CDW10_VALID: u8 = 0x04;

/// Flag bit that marks command dword 11 as valid.
pub const CMD_FLAG_CDW11_VALID: u8 = 0x08;

/// Selects the admin queue.
pub const QUEUE_TYPE_ADMIN: u8 = 0;

/// One second, in units of 100 ns.
pub const TIMEOUT_NS_1_SEC: u64 = 10_000_000;

/// Command dword 11 that places both boot partitions in "Write Protect Until Power Cycle" (state
/// 001b). Bits 2:0 hold the state of boot partition 0, bits 5:3 that of boot partition 1.
pub const BPWPS_LOCK_BP0_BP1: u32 = 0x09;

/// A command to the controller.
#[derive(Clone, Copy, Debug, PartialEq, Eq, Structural)]
pub struct Command {
    pub cdw0: u32,
    pub flags: u8,
    pub nsid: u32,
    pub cdw2: u32,
    pub cdw3: u32,
    pub cdw10: u32,
    pub cdw11: u32,
    pub cdw12: u32,
    pub cdw13: u32,
    pub cdw14: u32,
    pub cdw15: u32,
}

impl Command {
    /// A command with every field zero.
    pub open spec fn spec_zero() -> Self {
        Command {
            cdw0: 0,
            flags: 0,
            nsid: 0,
            cdw2: 0,
            cdw3: 0,
            cdw10: 0,
            cdw11: 0,
            cdw12: 0,
            cdw13: 0,
            cdw14: 0,
            cdw15: 0,
        }
    }

    /// A command with every field zero.
    pub fn zero() -> (command: Self)
        ensures
            command == Self::spec_zero(),
    {
        Command {
            cdw0: 0,
            flags: 0,
            nsid: 0,
            cdw2: 0,
            cdw3: 0,
            cdw10: 0,
            cdw11: 0,
            cdw12: 0,
            cdw13: 0,
            cdw14: 0,
            cdw15: 0,
        }
    }
}

/// What the controller writes when it has completed a command.
#[derive(Clone, Copy, Debug, PartialEq, Eq, Structural)]
pub struct Completion {
    pub dw0: u32,
    pub dw1: u32,
    pub dw2: u32,
    pub dw3: u32,
}

impl Completion {
    /// A completion with every field zero.
    pub fn zero() -> (completion: Self)
        ensures
            completion == (Completion { dw0: 0, dw1: 0, dw2: 0, dw3: 0 }),
    {
        Completion { dw0: 0, dw1: 0, dw2: 0, dw3: 0 }
    }

    /// The status field, in bits 31:17 of dword 3. Zero where the controller accepted the command.
    pub open spec fn spec_status_field(self) -> u32 {
        self.dw3 / 0x2_0000
    }

    /// The status field, in bits 31:17 of dword 3. Zero where the controller accepted the command.
    pub fn status_field(&self) -> (field: u32)
        ensures
            field == self.spec_status_field(),
    {
        let dw3: u32 = self.dw3;
        assert((dw3 >> 17u32) & 0x7fff == dw3 / 0x2_0000) by (bit_vector);
        (dw3 >> 17) & 0x7fff
    }
}

/// A command with what the driver needs to pass it on. Buffers for data and metadata are given by
/// their lengths; without a buffer the length is zero.
#[derive(Clone, Copy, Debug, PartialEq, Eq, Structural)]
pub struct CommandPacket {
    /// How long the command may take, in units of 100 ns.
    pub command_timeout: u64,
    pub transfer_length: u32,
    pub metadata_length: u32,
    pub queue_type: u8,
    pub nvme_cmd: Command,
}

} // verus!
