//! Identifiers of the RAM disk protocol, which turns a range of memory into a block device that the
//! system can boot from.
use vstd::prelude::*;

use crate::guid;
use crate::guid::Guid;

verus! {

/// Bytes of the GUID of the RAM disk type of a generic virtual disk.
pub open spec fn spec_ram_disk_virtual_disk_guid() -> Seq<u8> {
    guid::guid_layout(
        0x77ab535a,
        0x45fc,
        0x624b,
        0x55,
        0x60,
        seq![0xf7, 0xb2, 0x81, 0xd1, 0xf9, 0x6e],
    )
}

/// GUID of the RAM disk type of a generic virtual disk.
pub fn ram_disk_virtual_disk_guid() -> (guid: Guid)
    ensures
        guid@ == spec_ram_disk_virtual_disk_guid(),
{
    let node: [u8; 6] = [0xf7, 0xb2, 0x81, 0xd1, 0xf9, 0x6e];
    assert(node@ =~= seq![0xf7u8, 0xb2u8, 0x81u8, 0xd1u8, 0xf9u8, 0x6eu8]);
    Guid::from_fields(0x77ab535a, 0x45fc, 0x624b, 0x55, 0x60, &node)
}

/// Bytes of the GUID of the RAM disk type of a virtual CD image.
pub open spec fn spec_ram_disk_virtual_cd_guid() -> Seq<u8> {
    guid::guid_layout(
        0x3d5abd30,
        0x4175,
        0x87ce,
        0x6d,
        0x64,
        seq![0xd2, 0xad, 0xe5, 0x23, 0xc4, 0xbb],
    )
}

/// GUID of the RAM disk type of a virtual CD image.
pub fn ram_disk_virtual_cd_guid() -> (guid: Guid)
    ensures
        guid@ == spec_ram_disk_virtual_cd_guid(),
{
    let node: [u8; 6] = [0xd2, 0xad, 0xe5, 0x23, 0xc4, 0xbb];
    assert(node@ =~= seq![0xd2u8, 0xadu8, 0xe5u8, 0x23u8, 0xc4u8, 0xbbu8]);
    Guid::from_fields(0x3d5abd30, 0x4175, 0x87ce, 0x6d, 0x64, &node)
}

/// Bytes of the GUID of the RAM disk type of a persistent virtual disk.
pub open spec fn spec_ram_disk_persistent_virtual_disk_guid() -> Seq<u8> {
    guid::guid_layout(
        0x5cea02c9,
        0x4d07,
        0x69d3,
        0x26,
        0x9f,
        seq![0x44, 0x96, 0xfb, 0xe0, 0x96, 0xf9],
    )
}

/// GUID of the RAM disk type of a persistent virtual disk.
pub fn ram_disk_persistent_virtual_disk_guid() -> (guid: Guid)
    ensures
        guid@ == spec_ram_disk_persistent_virtual_disk_guid(),
{
    let node: [u8; 6] = [0x44, 0x96, 0xfb, 0xe0, 0x96, 0xf9];
    assert(node@ =~= seq![0x44u8, 0x96u8, 0xfbu8, 0xe0u8, 0x96u8, 0xf9u8]);
    Guid::from_fields(0x5cea02c9, 0x4d07, 0x69d3, 0x26, 0x9f, &node)
}

/// Bytes of the GUID of the RAM disk type of a persistent virtual CD image.
pub open spec fn spec_ram_disk_persistent_virtual_cd_guid() -> Seq<u8> {
    guid::guid_layout(
        0x08018188,
        0x42cd,
        0xbb48,
        0x10,
        0x0f,
        seq![0x53, 0x87, 0xd5, 0x3d, 0xed, 0x3d],
    )
}

/// GUID of the RAM disk type of a persistent virtual CD image.
pub fn ram_disk_persistent_virtual_cd_guid() -> (guid: Guid)
    ensures
        guid@ == spec_ram_disk_persistent_virtual_cd_guid(),
{
    let node: [u8; 6] = [0x53, 0x87, 0xd5, 0x3d, 0xed, 0x3d];
    assert(node@ =~= seq![0x53u8, 0x87u8, 0xd5u8, 0x3du8, 0xedu8, 0x3du8]);
    Guid::from_fields(0x08018188, 0x42cd, 0xbb48, 0x10, 0x0f, &node)
}

/// Bytes of the GUID of the RAM disk protocol.
pub open spec fn spec_ram_disk_protocol_guid() -> Seq<u8> {
    guid::guid_layout(
        0xab38a0df,
        0x6873,
        0x44a9,
        0x87,
        0xe6,
        seq![0xd4, 0xeb, 0x56, 0x14, 0x84, 0x49],
    )
}

/// GUID of the RAM disk protocol.
pub fn ram_disk_protocol_guid() -> (guid: Guid)
    ensures
        guid@ == spec_ram_disk_protocol_guid(),
{
    let node: [u8; 6] = [0xd4, 0xeb, 0x56, 0x14, 0x84, 0x49];
    assert(node@ =~= seq![0xd4u8, 0xebu8, 0x56u8, 0x14u8, 0x84u8, 0x49u8]);
    Guid::from_fields(0xab38a0df, 0x6873, 0x44a9, 0x87, 0xe6, &node)
}

/// The RAM disk types can be told apart.
pub proof fn ram_disk_types_are_distinct()
    ensures
        spec_ram_disk_virtual_disk_guid() != spec_ram_disk_virtual_cd_guid(),
        spec_ram_disk_virtual_disk_guid() != spec_ram_disk_persistent_virtual_disk_guid(),
        spec_ram_disk_virtual_disk_guid() != spec_ram_disk_persistent_virtual_cd_guid(),
        spec_ram_disk_virtual_cd_guid() != spec_ram_disk_persistent_virtual_disk_guid(),
        spec_ram_disk_virtual_cd_guid() != spec_ram_disk_persistent_virtual_cd_guid(),
        spec_ram_disk_persistent_virtual_disk_guid() != spec_ram_disk_persistent_virtual_cd_guid(),
{
    assert(spec_ram_disk_virtual_disk_guid()[8] == 0x55);
    assert(spec_ram_disk_virtual_cd_guid()[8] == 0x6d);
    assert(spec_ram_disk_persistent_virtual_disk_guid()[8] == 0x26);
    assert(spec_ram_disk_persistent_virtual_cd_guid()[8] == 0x10);
}

} // verus!
