//! Globally unique identifiers of protocols, event groups and variable namespaces.
use vstd::prelude::*;

verus! {

/// A UEFI GUID, held as the sixteen bytes that firmware sees in memory.
#[derive(Clone, Copy, Debug, PartialEq, Eq)]
pub struct Guid {
    bytes: [u8; 16],
}

impl View for Guid {
    type V = Seq<u8>;

    closed spec fn view(&self) -> Seq<u8> {
        self.bytes@
    }
}

/// The in-memory form of a GUID given by its fields: the first three fields little-endian, the others
/// byte by byte.
pub open spec fn guid_layout(
    time_low: u32,
    time_mid: u16,
    time_hi_and_version: u16,
    clk_seq_hi_res: u8,
    clk_seq_low: u8,
    node: Seq<u8>,
) -> Seq<u8> {
    seq![
        (time_low % 0x100) as u8,
        (time_low / 0x100 % 0x100) as u8,
        (time_low / 0x10000 % 0x100) as u8,
        (time_low / 0x1000000) as u8,
        (time_mid % 0x100) as u8,
        (time_mid / 0x100) as u8,
        (time_hi_and_version % 0x100) as u8,
        (time_hi_and_version / 0x100) as u8,
        clk_seq_hi_res,
        clk_seq_low,
    ] + node
}

/// `r_efi::efi::Guid::from_fields`, read out through `as_bytes`: the bytes are the fields laid out
/// as [`guid_layout`] says.
#[verifier::external_body]
fn efi_guid_from_fields(
    time_low: u32,
    time_mid: u16,
    time_hi_and_version: u16,
    clk_seq_hi_res: u8,
    clk_seq_low: u8,
    node: &[u8; 6],
) -> (bytes: [u8; 16])
    ensures
        bytes@ == guid_layout(
            time_low,
            time_mid,
            time_hi_and_version,
            clk_seq_hi_res,
            clk_seq_low,
            node@,
        ),
{
    *r_efi::efi::Guid::from_fields(
        time_low,
        time_mid,
        time_hi_and_version,
        clk_seq_hi_res,
        clk_seq_low,
        node,
    ).as_bytes()
}

/// Bytes of the SimpleTextInput protocol GUID.
pub open spec fn spec_simple_text_input_guid() -> Seq<u8> {
    guid_layout(0x387477c1, 0x69c7, 0x11d2, 0x8e, 0x39, seq![0x00, 0xa0, 0xc9, 0x69, 0x72, 0x3b])
}

/// The constant `r_efi::efi::protocols::simple_text_input::PROTOCOL_GUID`, as bytes.
#[verifier::external_body]
fn efi_simple_text_input_guid() -> (bytes: [u8; 16])
    ensures
        bytes@ == spec_simple_text_input_guid(),
{
    *r_efi::efi::protocols::simple_text_input::PROTOCOL_GUID.as_bytes()
}

/// Bytes of the SimpleTextOutput protocol GUID.
pub open spec fn spec_simple_text_output_guid() -> Seq<u8> {
    guid_layout(0x387477c2, 0x69c7, 0x11d2, 0x8e, 0x39, seq![0x00, 0xa0, 0xc9, 0x69, 0x72, 0x3b])
}

/// The constant `r_efi::efi::protocols::simple_text_output::PROTOCOL_GUID`, as bytes.
#[verifier::external_body]
fn efi_simple_text_output_guid() -> (bytes: [u8; 16])
    ensures
        bytes@ == spec_simple_text_output_guid(),
{
    *r_efi::efi::protocols::simple_text_output::PROTOCOL_GUID.as_bytes()
}

/// Bytes of the GraphicsOutput protocol GUID.
pub open spec fn spec_graphics_output_guid() -> Seq<u8> {
    guid_layout(0x9042a9de, 0x23dc, 0x4a38, 0x96, 0xfb, seq![0x7a, 0xde, 0xd0, 0x80, 0x51, 0x6a])
}

/// The constant `r_efi::efi::protocols::graphics_output::PROTOCOL_GUID`, as bytes.
#[verifier::external_body]
fn efi_graphics_output_guid() -> (bytes: [u8; 16])
    ensures
        bytes@ == spec_graphics_output_guid(),
{
    *r_efi::efi::protocols::graphics_output::PROTOCOL_GUID.as_bytes()
}

/// Bytes of the DevicePath protocol GUID.
pub open spec fn spec_device_path_guid() -> Seq<u8> {
    guid_layout(0x09576e91, 0x6d3f, 0x11d2, 0x8e, 0x39, seq![0x00, 0xa0, 0xc9, 0x69, 0x72, 0x3b])
}

/// The constant `r_efi::efi::protocols::device_path::PROTOCOL_GUID`, as bytes.
#[verifier::external_body]
fn efi_device_path_guid() -> (bytes: [u8; 16])
    ensures
        bytes@ == spec_device_path_guid(),
{
    *r_efi::efi::protocols::device_path::PROTOCOL_GUID.as_bytes()
}

/// Bytes of the ReadyToBoot event group GUID.
pub open spec fn spec_ready_to_boot_guid() -> Seq<u8> {
    guid_layout(0x7ce88fb3, 0x4bd7, 0x4679, 0x87, 0xa8, seq![0xa8, 0xd8, 0xde, 0xe5, 0x0d, 0x2b])
}

/// The constant `r_efi::efi::EVENT_GROUP_READY_TO_BOOT`, as bytes.
#[verifier::external_body]
fn efi_ready_to_boot_guid() -> (bytes: [u8; 16])
    ensures
        bytes@ == spec_ready_to_boot_guid(),
{
    *r_efi::efi::EVENT_GROUP_READY_TO_BOOT.as_bytes()
}

/// Bytes of the GUID of the EndOfDxe event group.
pub open spec fn spec_end_of_dxe_guid() -> Seq<u8> {
    guid_layout(0x02ce967a, 0xdd7e, 0x4ffc, 0x9e, 0xe7, seq![0x81, 0x0c, 0xf0, 0x47, 0x08, 0x80])
}

/// Bytes of the GUID of the namespace of the global variables of the firmware.
pub open spec fn spec_global_variable_guid() -> Seq<u8> {
    guid_layout(0x8be4df61, 0x93ca, 0x11d2, 0xaa, 0x0d, seq![0x00, 0xe0, 0x98, 0x03, 0x2b, 0x8c])
}

/// Bytes of the GUID of the NVM Express Pass-Thru protocol.
pub open spec fn spec_nvme_pass_thru_guid() -> Seq<u8> {
    guid_layout(0x52c78312, 0x8edc, 0x4233, 0x98, 0xf2, seq![0x1a, 0x1a, 0xa5, 0xe3, 0x88, 0xa5])
}

/// Bytes of the GUID of the BDS architectural protocol.
pub open spec fn spec_bds_guid() -> Seq<u8> {
    guid_layout(0x665e3ff6, 0x46cc, 0x11d4, 0x9a, 0x38, seq![0x00, 0x90, 0x27, 0x3f, 0xc1, 0x4d])
}

impl Guid {
    /// Builds a GUID from its fields.
    pub fn from_fields(
        time_low: u32,
        time_mid: u16,
        time_hi_and_version: u16,
        clk_seq_hi_res: u8,
        clk_seq_low: u8,
        node: &[u8; 6],
    ) -> (guid: Self)
        ensures
            guid@ == guid_layout(
                time_low,
                time_mid,
                time_hi_and_version,
                clk_seq_hi_res,
                clk_seq_low,
                node@,
            ),
    {
        Guid {
            bytes: efi_guid_from_fields(
                time_low,
                time_mid,
                time_hi_and_version,
                clk_seq_hi_res,
                clk_seq_low,
                node,
            ),
        }
    }

    /// The sixteen bytes of the GUID, in memory order.
    pub fn as_bytes(&self) -> (bytes: [u8; 16])
        ensures
            bytes@ == self@,
    {
        self.bytes
    }

    /// GUID of the SimpleTextInput protocol.
    pub fn simple_text_input() -> (guid: Self)
        ensures
            guid@ == spec_simple_text_input_guid(),
    {
        Guid { bytes: efi_simple_text_input_guid() }
    }

    /// GUID of the SimpleTextOutput protocol.
    pub fn simple_text_output() -> (guid: Self)
        ensures
            guid@ == spec_simple_text_output_guid(),
    {
        Guid { bytes: efi_simple_text_output_guid() }
    }

    /// GUID of the GraphicsOutput protocol.
    pub fn graphics_output() -> (guid: Self)
        ensures
            guid@ == spec_graphics_output_guid(),
    {
        Guid { bytes: efi_graphics_output_guid() }
    }

    /// GUID of the DevicePath protocol.
    pub fn device_path() -> (guid: Self)
        ensures
            guid@ == spec_device_path_guid(),
    {
        Guid { bytes: efi_device_path_guid() }
    }

    /// GUID of the ReadyToBoot event group.
    pub fn ready_to_boot() -> (guid: Self)
        ensures
            guid@ == spec_ready_to_boot_guid(),
    {
        Guid { bytes: efi_ready_to_boot_guid() }
    }

    /// GUID of the EndOfDxe event group.
    pub fn end_of_dxe() -> (guid: Self)
        ensures
            guid@ == spec_end_of_dxe_guid(),
    {
        let node: [u8; 6] = [0x81, 0x0c, 0xf0, 0x47, 0x08, 0x80];
        assert(node@ =~= seq![0x81u8, 0x0cu8, 0xf0u8, 0x47u8, 0x08u8, 0x80u8]);
        Self::from_fields(0x02ce967a, 0xdd7e, 0x4ffc, 0x9e, 0xe7, &node)
    }

    /// GUID of the namespace of the global variables of the firmware.
    pub fn global_variable() -> (guid: Self)
        ensures
            guid@ == spec_global_variable_guid(),
    {
        let node: [u8; 6] = [0x00, 0xe0, 0x98, 0x03, 0x2b, 0x8c];
        assert(node@ =~= seq![0x00u8, 0xe0u8, 0x98u8, 0x03u8, 0x2bu8, 0x8cu8]);
        Self::from_fields(0x8be4df61, 0x93ca, 0x11d2, 0xaa, 0x0d, &node)
    }

    /// GUID of the NVM Express Pass-Thru protocol.
    pub fn nvme_pass_thru() -> (guid: Self)
        ensures
            guid@ == spec_nvme_pass_thru_guid(),
    {
        let node: [u8; 6] = [0x1a, 0x1a, 0xa5, 0xe3, 0x88, 0xa5];
        assert(node@ =~= seq![0x1au8, 0x1au8, 0xa5u8, 0xe3u8, 0x88u8, 0xa5u8]);
        Self::from_fields(0x52c78312, 0x8edc, 0x4233, 0x98, 0xf2, &node)
    }

    /// GUID of the BDS architectural protocol.
    pub fn bds() -> (guid: Self)
        ensures
            guid@ == spec_bds_guid(),
    {
        let node: [u8; 6] = [0x00, 0x90, 0x27, 0x3f, 0xc1, 0x4d];
        assert(node@ =~= seq![0x00u8, 0x90u8, 0x27u8, 0x3fu8, 0xc1u8, 0x4du8]);
        Self::from_fields(0x665e3ff6, 0x46cc, 0x11d4, 0x9a, 0x38, &node)
    }
}

} // verus!
