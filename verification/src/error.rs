//! Status codes of firmware services and the errors they stand for.
use vstd::prelude::*;

verus! {

/// A status code as a firmware service returns it. Zero is success; error codes have the topmost
/// bit set.
pub type Status = usize;

/// The smallest value with the topmost bit of a status code set.
pub open spec fn error_bit() -> int {
    usize::MAX as int / 2 + 1
}

/// The status code of error number `code`.
pub open spec fn error_status(code: int) -> int {
    error_bit() + code
}

/// The error number of a status code that has the topmost bit set.
pub open spec fn error_code(status: Status) -> usize {
    (status - error_bit()) as usize
}

/// The constant `r_efi::efi::Status::SUCCESS`, as an integer: zero.
#[verifier::external_body]
fn efi_success() -> (status: usize)
    ensures
        status == 0,
{
    r_efi::efi::Status::SUCCESS.as_usize()
}

/// The constant `r_efi::efi::Status::DEVICE_ERROR`, as an integer: the code seven with the topmost
/// bit set.
#[verifier::external_body]
fn efi_device_error() -> (status: usize)
    ensures
        status == error_status(7),
{
    r_efi::efi::Status::DEVICE_ERROR.as_usize()
}

/// Whether a service reports success.
pub fn is_success(status: Status) -> (success: bool)
    ensures
        success == (status == 0),
{
    status == efi_success()
}

/// The status code by which a device reports an error.
pub fn device_error() -> (status: Status)
    ensures
        status == error_status(7),
{
    efi_device_error()
}

/// Why an operation failed: one variant for each error code of the firmware.
#[derive(Clone, Copy, Debug, PartialEq, Eq, Structural)]
pub enum EfiError {
    /// The image failed to load.
    LoadError,
    /// A parameter was incorrect.
    InvalidParameter,
    /// The operation is not supported.
    Unsupported,
    /// The buffer was not the proper size.
    BadBufferSize,
    /// The buffer is too small for the requested data.
    BufferTooSmall,
    /// There is no data pending.
    NotReady,
    /// The physical device reported an error.
    DeviceError,
    /// The device cannot be written to.
    WriteProtected,
    /// A resource has run out.
    OutOfResources,
    /// The file system is inconsistent.
    VolumeCorrupted,
    /// There is no more space on the file system.
    VolumeFull,
    /// The device holds no medium.
    NoMedia,
    /// The medium has changed since the last access.
    MediaChanged,
    /// The item was not found.
    NotFound,
    /// Access was denied.
    AccessDenied,
    /// The server did not respond.
    NoResponse,
    /// A mapping to a device does not exist.
    NoMapping,
    /// The timeout expired.
    Timeout,
    /// The protocol has not been started.
    NotStarted,
    /// The protocol has already been started.
    AlreadyStarted,
    /// The operation was aborted.
    Aborted,
    /// An ICMP error occurred.
    IcmpError,
    /// A TFTP error occurred.
    TftpError,
    /// A protocol error occurred.
    ProtocolError,
    /// The requested version is incompatible.
    IncompatibleVersion,
    /// A security violation was detected.
    SecurityViolation,
    /// A CRC error was detected.
    CrcError,
    /// The beginning or end of the medium was reached.
    EndOfMedia,
    /// The end of the file was reached.
    EndOfFile,
    /// The language was invalid.
    InvalidLanguage,
    /// The security of the data is unknown or compromised.
    CompromisedData,
    /// An address conflict was detected.
    IpAddressConflict,
    /// An HTTP error occurred.
    HttpError,
    /// A status code that is none of the above.
    Other(Status),
}

/// The error that a status code stands for.
pub open spec fn error_of(status: Status) -> EfiError {
    if status < error_bit() {
        EfiError::Other(status)
    } else {
        match error_code(status) {
            1 => EfiError::LoadError,
            2 => EfiError::InvalidParameter,
            3 => EfiError::Unsupported,
            4 => EfiError::BadBufferSize,
            5 => EfiError::BufferTooSmall,
            6 => EfiError::NotReady,
            7 => EfiError::DeviceError,
            8 => EfiError::WriteProtected,
            9 => EfiError::OutOfResources,
            10 => EfiError::VolumeCorrupted,
            11 => EfiError::VolumeFull,
            12 => EfiError::NoMedia,
            13 => EfiError::MediaChanged,
            14 => EfiError::NotFound,
            15 => EfiError::AccessDenied,
            16 => EfiError::NoResponse,
            17 => EfiError::NoMapping,
            18 => EfiError::Timeout,
            19 => EfiError::NotStarted,
            20 => EfiError::AlreadyStarted,
            21 => EfiError::Aborted,
            22 => EfiError::IcmpError,
            23 => EfiError::TftpError,
            24 => EfiError::ProtocolError,
            25 => EfiError::IncompatibleVersion,
            26 => EfiError::SecurityViolation,
            27 => EfiError::CrcError,
            28 => EfiError::EndOfMedia,
            31 => EfiError::EndOfFile,
            32 => EfiError::InvalidLanguage,
            33 => EfiError::CompromisedData,
            34 => EfiError::IpAddressConflict,
            35 => EfiError::HttpError,
            _ => EfiError::Other(status),
        }
    }
}

impl EfiError {
    /// The error that a status code stands for.
    pub fn from_status(status: Status) -> (error: Self)
        ensures
            error == error_of(status),
    {
        let error_bit: usize = usize::MAX / 2 + 1;
        if status < error_bit {
            return EfiError::Other(status);
        }
        match status - error_bit {
            1 => EfiError::LoadError,
            2 => EfiError::InvalidParameter,
            3 => EfiError::Unsupported,
            4 => EfiError::BadBufferSize,
            5 => EfiError::BufferTooSmall,
            6 => EfiError::NotReady,
            7 => EfiError::DeviceError,
            8 => EfiError::WriteProtected,
            9 => EfiError::OutOfResources,
            10 => EfiError::VolumeCorrupted,
            11 => EfiError::VolumeFull,
            12 => EfiError::NoMedia,
            13 => EfiError::MediaChanged,
            14 => EfiError::NotFound,
            15 => EfiError::AccessDenied,
            16 => EfiError::NoResponse,
            17 => EfiError::NoMapping,
            18 => EfiError::Timeout,
            19 => EfiError::NotStarted,
            20 => EfiError::AlreadyStarted,
            21 => EfiError::Aborted,
            22 => EfiError::IcmpError,
            23 => EfiError::TftpError,
            24 => EfiError::ProtocolError,
            25 => EfiError::IncompatibleVersion,
            26 => EfiError::SecurityViolation,
            27 => EfiError::CrcError,
            28 => EfiError::EndOfMedia,
            31 => EfiError::EndOfFile,
            32 => EfiError::InvalidLanguage,
            33 => EfiError::CompromisedData,
            34 => EfiError::IpAddressConflict,
            35 => EfiError::HttpError,
            _ => EfiError::Other(status),
        }
    }
}

} // verus!
