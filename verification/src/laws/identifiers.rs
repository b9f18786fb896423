//! Laws of GUIDs and status codes.
use vstd::prelude::*;

use crate::error;
use crate::error::{EfiError, Status};
use crate::guid;
use crate::ram_disk;

verus! {

/// The fields of a GUID can be read out of its bytes: the first three as little-endian numbers, the
/// others byte by byte.
pub proof fn guid_bytes_hold_the_fields(
    time_low: u32,
    time_mid: u16,
    time_hi_and_version: u16,
    clk_seq_hi_res: u8,
    clk_seq_low: u8,
    node: Seq<u8>,
)
    ensures
        ({
            let bytes = guid::guid_layout(
                time_low,
                time_mid,
                time_hi_and_version,
                clk_seq_hi_res,
                clk_seq_low,
                node,
            );
            &&& bytes.len() == 10 + node.len()
            &&& bytes[0] + 0x100 * bytes[1] + 0x10000 * bytes[2] + 0x1000000 * bytes[3] == time_low
            &&& bytes[4] + 0x100 * bytes[5] == time_mid
            &&& bytes[6] + 0x100 * bytes[7] == time_hi_and_version
            &&& bytes[8] == clk_seq_hi_res
            &&& bytes[9] == clk_seq_low
            &&& bytes.skip(10) == node
        }),
{
    let bytes = guid::guid_layout(
        time_low,
        time_mid,
        time_hi_and_version,
        clk_seq_hi_res,
        clk_seq_low,
        node,
    );
    assert(bytes.skip(10) =~= node);
}

/// The GUIDs that firmware knows, byte by byte.
pub proof fn guids_have_their_bytes()
    ensures
        guid::spec_simple_text_input_guid() == seq![
            0xc1u8, 0x77, 0x74, 0x38, 0xc7, 0x69, 0xd2, 0x11, 0x8e, 0x39, 0x00, 0xa0, 0xc9,
            0x69, 0x72, 0x3b,
        ],
        guid::spec_simple_text_output_guid() == seq![
            0xc2u8, 0x77, 0x74, 0x38, 0xc7, 0x69, 0xd2, 0x11, 0x8e, 0x39, 0x00, 0xa0, 0xc9,
            0x69, 0x72, 0x3b,
        ],
        guid::spec_graphics_output_guid() == seq![
            0xdeu8, 0xa9, 0x42, 0x90, 0xdc, 0x23, 0x38, 0x4a, 0x96, 0xfb, 0x7a, 0xde, 0xd0,
            0x80, 0x51, 0x6a,
        ],
        guid::spec_device_path_guid() == seq![
            0x91u8, 0x6e, 0x57, 0x09, 0x3f, 0x6d, 0xd2, 0x11, 0x8e, 0x39, 0x00, 0xa0, 0xc9,
            0x69, 0x72, 0x3b,
        ],
        guid::spec_ready_to_boot_guid() == seq![
            0xb3u8, 0x8f, 0xe8, 0x7c, 0xd7, 0x4b, 0x79, 0x46, 0x87, 0xa8, 0xa8, 0xd8, 0xde,
            0xe5, 0x0d, 0x2b,
        ],
        guid::spec_end_of_dxe_guid() == seq![
            0x7au8, 0x96, 0xce, 0x02, 0x7e, 0xdd, 0xfc, 0x4f, 0x9e, 0xe7, 0x81, 0x0c, 0xf0,
            0x47, 0x08, 0x80,
        ],
        guid::spec_global_variable_guid() == seq![
            0x61u8, 0xdf, 0xe4, 0x8b, 0xca, 0x93, 0xd2, 0x11, 0xaa, 0x0d, 0x00, 0xe0, 0x98,
            0x03, 0x2b, 0x8c,
        ],
        guid::spec_nvme_pass_thru_guid() == seq![
            0x12u8, 0x83, 0xc7, 0x52, 0xdc, 0x8e, 0x33, 0x42, 0x98, 0xf2, 0x1a, 0x1a, 0xa5,
            0xe3, 0x88, 0xa5,
        ],
        guid::spec_bds_guid() == seq![
            0xf6u8, 0x3f, 0x5e, 0x66, 0xcc, 0x46, 0xd4, 0x11, 0x9a, 0x38, 0x00, 0x90, 0x27,
            0x3f, 0xc1, 0x4d,
        ],
{
    assert(guid::spec_simple_text_input_guid() =~= seq![
        0xc1u8, 0x77, 0x74, 0x38, 0xc7, 0x69, 0xd2, 0x11, 0x8e, 0x39, 0x00, 0xa0, 0xc9, 0x69,
        0x72, 0x3b,
    ]);
    assert(guid::spec_simple_text_output_guid() =~= seq![
        0xc2u8, 0x77, 0x74, 0x38, 0xc7, 0x69, 0xd2, 0x11, 0x8e, 0x39, 0x00, 0xa0, 0xc9, 0x69,
        0x72, 0x3b,
    ]);
    assert(guid::spec_graphics_output_guid() =~= seq![
        0xdeu8, 0xa9, 0x42, 0x90, 0xdc, 0x23, 0x38, 0x4a, 0x96, 0xfb, 0x7a, 0xde, 0xd0, 0x80,
        0x51, 0x6a,
    ]);
    assert(guid::spec_device_path_guid() =~= seq![
        0x91u8, 0x6e, 0x57, 0x09, 0x3f, 0x6d, 0xd2, 0x11, 0x8e, 0x39, 0x00, 0xa0, 0xc9, 0x69,
        0x72, 0x3b,
    ]);
    assert(guid::spec_ready_to_boot_guid() =~= seq![
        0xb3u8, 0x8f, 0xe8, 0x7c, 0xd7, 0x4b, 0x79, 0x46, 0x87, 0xa8, 0xa8, 0xd8, 0xde, 0xe5,
        0x0d, 0x2b,
    ]);
    assert(guid::spec_end_of_dxe_guid() =~= seq![
        0x7au8, 0x96, 0xce, 0x02, 0x7e, 0xdd, 0xfc, 0x4f, 0x9e, 0xe7, 0x81, 0x0c, 0xf0, 0x47,
        0x08, 0x80,
    ]);
    assert(guid::spec_global_variable_guid() =~= seq![
        0x61u8, 0xdf, 0xe4, 0x8b, 0xca, 0x93, 0xd2, 0x11, 0xaa, 0x0d, 0x00, 0xe0, 0x98, 0x03,
        0x2b, 0x8c,
    ]);
    assert(guid::spec_nvme_pass_thru_guid() =~= seq![
        0x12u8, 0x83, 0xc7, 0x52, 0xdc, 0x8e, 0x33, 0x42, 0x98, 0xf2, 0x1a, 0x1a, 0xa5, 0xe3,
        0x88, 0xa5,
    ]);
    assert(guid::spec_bds_guid() =~= seq![
        0xf6u8, 0x3f, 0x5e, 0x66, 0xcc, 0x46, 0xd4, 0x11, 0x9a, 0x38, 0x00, 0x90, 0x27, 0x3f,
        0xc1, 0x4d,
    ]);
}

/// The GUIDs of the RAM disk protocol and of the RAM disk types, byte by byte.
pub proof fn ram_disk_guids_have_their_bytes()
    ensures
        ram_disk::spec_ram_disk_virtual_disk_guid() == seq![
            0x5au8, 0x53, 0xab, 0x77, 0xfc, 0x45, 0x4b, 0x62, 0x55, 0x60, 0xf7, 0xb2, 0x81,
            0xd1, 0xf9, 0x6e,
        ],
        ram_disk::spec_ram_disk_virtual_cd_guid() == seq![
            0x30u8, 0xbd, 0x5a, 0x3d, 0x75, 0x41, 0xce, 0x87, 0x6d, 0x64, 0xd2, 0xad, 0xe5,
            0x23, 0xc4, 0xbb,
        ],
        ram_disk::spec_ram_disk_persistent_virtual_disk_guid() == seq![
            0xc9u8, 0x02, 0xea, 0x5c, 0x07, 0x4d, 0xd3, 0x69, 0x26, 0x9f, 0x44, 0x96, 0xfb,
            0xe0, 0x96, 0xf9,
        ],
        ram_disk::spec_ram_disk_persistent_virtual_cd_guid() == seq![
            0x88u8, 0x81, 0x01, 0x08, 0xcd, 0x42, 0x48, 0xbb, 0x10, 0x0f, 0x53, 0x87, 0xd5,
            0x3d, 0xed, 0x3d,
        ],
        ram_disk::spec_ram_disk_protocol_guid() == seq![
            0xdfu8, 0xa0, 0x38, 0xab, 0x73, 0x68, 0xa9, 0x44, 0x87, 0xe6, 0xd4, 0xeb, 0x56,
            0x14, 0x84, 0x49,
        ],
{
    assert(ram_disk::spec_ram_disk_virtual_disk_guid() =~= seq![
        0x5au8, 0x53, 0xab, 0x77, 0xfc, 0x45, 0x4b, 0x62, 0x55, 0x60, 0xf7, 0xb2, 0x81, 0xd1,
        0xf9, 0x6e,
    ]);
    assert(ram_disk::spec_ram_disk_virtual_cd_guid() =~= seq![
        0x30u8, 0xbd, 0x5a, 0x3d, 0x75, 0x41, 0xce, 0x87, 0x6d, 0x64, 0xd2, 0xad, 0xe5, 0x23,
        0xc4, 0xbb,
    ]);
    assert(ram_disk::spec_ram_disk_persistent_virtual_disk_guid() =~= seq![
        0xc9u8, 0x02, 0xea, 0x5c, 0x07, 0x4d, 0xd3, 0x69, 0x26, 0x9f, 0x44, 0x96, 0xfb, 0xe0,
        0x96, 0xf9,
    ]);
    assert(ram_disk::spec_ram_disk_persistent_virtual_cd_guid() =~= seq![
        0x88u8, 0x81, 0x01, 0x08, 0xcd, 0x42, 0x48, 0xbb, 0x10, 0x0f, 0x53, 0x87, 0xd5, 0x3d,
        0xed, 0x3d,
    ]);
    assert(ram_disk::spec_ram_disk_protocol_guid() =~= seq![
        0xdfu8, 0xa0, 0x38, 0xab, 0x73, 0x68, 0xa9, 0x44, 0x87, 0xe6, 0xd4, 0xeb, 0x56, 0x14,
        0x84, 0x49,
    ]);
}

/// Different status codes are different errors.
pub proof fn errors_tell_statuses_apart(one: Status, other: Status)
    requires
        error::error_of(one) == error::error_of(other),
    ensures
        one == other,
{
}

/// An error has the number of its status code behind the topmost bit; a status code without that bit,
/// or with a number that none has, is kept as it is.
pub proof fn errors_have_their_numbers(status: Status)
    ensures
        ({
            let number = status - (usize::MAX / 2 + 1);
            let error = error::error_of(status);
            &&& number == 1 <==> error == EfiError::LoadError
            &&& number == 2 <==> error == EfiError::InvalidParameter
            &&& number == 3 <==> error == EfiError::Unsupported
            &&& number == 4 <==> error == EfiError::BadBufferSize
            &&& number == 5 <==> error == EfiError::BufferTooSmall
            &&& number == 6 <==> error == EfiError::NotReady
            &&& number == 7 <==> error == EfiError::DeviceError
            &&& number == 8 <==> error == EfiError::WriteProtected
            &&& number == 9 <==> error == EfiError::OutOfResources
            &&& number == 10 <==> error == EfiError::VolumeCorrupted
            &&& number == 11 <==> error == EfiError::VolumeFull
            &&& number == 12 <==> error == EfiError::NoMedia
            &&& number == 13 <==> error == EfiError::MediaChanged
            &&& number == 14 <==> error == EfiError::NotFound
            &&& number == 15 <==> error == EfiError::AccessDenied
            &&& number == 16 <==> error == EfiError::NoResponse
            &&& number == 17 <==> error == EfiError::NoMapping
            &&& number == 18 <==> error == EfiError::Timeout
            &&& number == 19 <==> error == EfiError::NotStarted
            &&& number == 20 <==> error == EfiError::AlreadyStarted
            &&& number == 21 <==> error == EfiError::Aborted
            &&& number == 22 <==> error == EfiError::IcmpError
            &&& number == 23 <==> error == EfiError::TftpError
            &&& number == 24 <==> error == EfiError::ProtocolError
            &&& number == 25 <==> error == EfiError::IncompatibleVersion
            &&& number == 26 <==> error == EfiError::SecurityViolation
            &&& number == 27 <==> error == EfiError::CrcError
            &&& number == 28 <==> error == EfiError::EndOfMedia
            &&& number == 31 <==> error == EfiError::EndOfFile
            &&& number == 32 <==> error == EfiError::InvalidLanguage
            &&& number == 33 <==> error == EfiError::CompromisedData
            &&& number == 34 <==> error == EfiError::IpAddressConflict
            &&& number == 35 <==> error == EfiError::HttpError
            &&& number < 1 || number == 29 || number == 30 || number > 35 ==> error
                == EfiError::Other(status)
        }),
{
}

} // verus!
