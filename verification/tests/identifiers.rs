use patina_boot::error::{device_error, is_success, EfiError};
use patina_boot::guid::Guid;
use patina_boot::ram_disk::{
    ram_disk_persistent_virtual_cd_guid, ram_disk_persistent_virtual_disk_guid,
    ram_disk_protocol_guid, ram_disk_virtual_cd_guid, ram_disk_virtual_disk_guid,
};
use r_efi::efi;

#[test]
fn protocol_guid_matches_uefi_spec() {
    let expected = efi::Guid::from_fields(
        0xab38a0df,
        0x6873,
        0x44a9,
        0x87,
        0xe6,
        &[0xd4, 0xeb, 0x56, 0x14, 0x84, 0x49],
    );
    assert_eq!(
        ram_disk_protocol_guid().as_bytes(),
        *expected.as_bytes(),
        "RAM Disk protocol GUID must match the UEFI specification"
    );
}

#[test]
fn ram_disk_type_guids_are_distinct() {
    let virtual_disk = ram_disk_virtual_disk_guid().as_bytes();
    let virtual_cd = ram_disk_virtual_cd_guid().as_bytes();
    let persistent = ram_disk_persistent_virtual_disk_guid().as_bytes();
    let persistent_cd = ram_disk_persistent_virtual_cd_guid().as_bytes();

    assert_ne!(virtual_disk, virtual_cd);
    assert_ne!(virtual_disk, persistent);
    assert_ne!(virtual_disk, persistent_cd);
    assert_ne!(virtual_cd, persistent);
    assert_ne!(virtual_cd, persistent_cd);
    assert_ne!(persistent, persistent_cd);
}

#[test]
fn ram_disk_type_guids_have_their_values() {
    let cases = [
        (
            ram_disk_virtual_disk_guid(),
            efi::Guid::from_fields(
                0x77ab535a,
                0x45fc,
                0x624b,
                0x55,
                0x60,
                &[0xf7, 0xb2, 0x81, 0xd1, 0xf9, 0x6e],
            ),
        ),
        (
            ram_disk_virtual_cd_guid(),
            efi::Guid::from_fields(
                0x3d5abd30,
                0x4175,
                0x87ce,
                0x6d,
                0x64,
                &[0xd2, 0xad, 0xe5, 0x23, 0xc4, 0xbb],
            ),
        ),
        (
            ram_disk_persistent_virtual_disk_guid(),
            efi::Guid::from_fields(
                0x5cea02c9,
                0x4d07,
                0x69d3,
                0x26,
                0x9f,
                &[0x44, 0x96, 0xfb, 0xe0, 0x96, 0xf9],
            ),
        ),
        (
            ram_disk_persistent_virtual_cd_guid(),
            efi::Guid::from_fields(
                0x08018188,
                0x42cd,
                0xbb48,
                0x10,
                0x0f,
                &[0x53, 0x87, 0xd5, 0x3d, 0xed, 0x3d],
            ),
        ),
    ];
    for (guid, expected) in cases {
        assert_eq!(guid.as_bytes(), *expected.as_bytes());
    }
}

#[test]
fn guids_are_laid_out_little_endian() {
    let guid = Guid::from_fields(0x01020304, 0x0506, 0x0708, 0x09, 0x0a, &[11, 12, 13, 14, 15, 16]);
    assert_eq!(guid.as_bytes(), [4, 3, 2, 1, 6, 5, 8, 7, 9, 10, 11, 12, 13, 14, 15, 16]);
}

#[test]
fn protocol_guids_are_those_of_the_firmware() {
    let cases = [
        (Guid::simple_text_input(), efi::protocols::simple_text_input::PROTOCOL_GUID),
        (Guid::simple_text_output(), efi::protocols::simple_text_output::PROTOCOL_GUID),
        (Guid::graphics_output(), efi::protocols::graphics_output::PROTOCOL_GUID),
        (Guid::device_path(), efi::protocols::device_path::PROTOCOL_GUID),
        (Guid::ready_to_boot(), r_efi::system::EVENT_GROUP_READY_TO_BOOT),
    ];
    for (guid, expected) in cases {
        assert_eq!(guid.as_bytes(), *expected.as_bytes());
    }
    assert_eq!(
        Guid::device_path().as_bytes(),
        [
            0x91, 0x6e, 0x57, 0x09, 0x3f, 0x6d, 0xd2, 0x11, 0x8e, 0x39, 0x00, 0xa0, 0xc9, 0x69,
            0x72, 0x3b,
        ]
    );
    assert_eq!(
        Guid::end_of_dxe().as_bytes(),
        [
            0x7a, 0x96, 0xce, 0x02, 0x7e, 0xdd, 0xfc, 0x4f, 0x9e, 0xe7, 0x81, 0x0c, 0xf0, 0x47,
            0x08, 0x80,
        ]
    );
    assert_eq!(
        Guid::bds().as_bytes(),
        [
            0xf6, 0x3f, 0x5e, 0x66, 0xcc, 0x46, 0xd4, 0x11, 0x9a, 0x38, 0x00, 0x90, 0x27, 0x3f,
            0xc1, 0x4d,
        ]
    );
}

#[test]
fn statuses_become_errors() {
    let cases = [
        (efi::Status::LOAD_ERROR, EfiError::LoadError),
        (efi::Status::INVALID_PARAMETER, EfiError::InvalidParameter),
        (efi::Status::UNSUPPORTED, EfiError::Unsupported),
        (efi::Status::BAD_BUFFER_SIZE, EfiError::BadBufferSize),
        (efi::Status::BUFFER_TOO_SMALL, EfiError::BufferTooSmall),
        (efi::Status::NOT_READY, EfiError::NotReady),
        (efi::Status::DEVICE_ERROR, EfiError::DeviceError),
        (efi::Status::WRITE_PROTECTED, EfiError::WriteProtected),
        (efi::Status::OUT_OF_RESOURCES, EfiError::OutOfResources),
        (efi::Status::VOLUME_CORRUPTED, EfiError::VolumeCorrupted),
        (efi::Status::VOLUME_FULL, EfiError::VolumeFull),
        (efi::Status::NO_MEDIA, EfiError::NoMedia),
        (efi::Status::MEDIA_CHANGED, EfiError::MediaChanged),
        (efi::Status::NOT_FOUND, EfiError::NotFound),
        (efi::Status::ACCESS_DENIED, EfiError::AccessDenied),
        (efi::Status::NO_RESPONSE, EfiError::NoResponse),
        (efi::Status::NO_MAPPING, EfiError::NoMapping),
        (efi::Status::TIMEOUT, EfiError::Timeout),
        (efi::Status::NOT_STARTED, EfiError::NotStarted),
        (efi::Status::ALREADY_STARTED, EfiError::AlreadyStarted),
        (efi::Status::ABORTED, EfiError::Aborted),
        (efi::Status::ICMP_ERROR, EfiError::IcmpError),
        (efi::Status::TFTP_ERROR, EfiError::TftpError),
        (efi::Status::PROTOCOL_ERROR, EfiError::ProtocolError),
        (efi::Status::INCOMPATIBLE_VERSION, EfiError::IncompatibleVersion),
        (efi::Status::SECURITY_VIOLATION, EfiError::SecurityViolation),
        (efi::Status::CRC_ERROR, EfiError::CrcError),
        (efi::Status::END_OF_MEDIA, EfiError::EndOfMedia),
        (efi::Status::END_OF_FILE, EfiError::EndOfFile),
        (efi::Status::INVALID_LANGUAGE, EfiError::InvalidLanguage),
        (efi::Status::COMPROMISED_DATA, EfiError::CompromisedData),
        (efi::Status::IP_ADDRESS_CONFLICT, EfiError::IpAddressConflict),
        (efi::Status::HTTP_ERROR, EfiError::HttpError),
    ];
    for (status, error) in cases {
        assert_eq!(EfiError::from_status(status.as_usize()), error);
    }
    assert_eq!(EfiError::from_status(14), EfiError::Other(14));
}

#[test]
fn success_is_told_from_errors() {
    assert!(is_success(efi::Status::SUCCESS.as_usize()));
    assert!(!is_success(efi::Status::NOT_READY.as_usize()));
    assert_eq!(device_error(), efi::Status::DEVICE_ERROR.as_usize());
}
