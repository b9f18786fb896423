//! Service interface for the storage that the system boots from.
use vstd::prelude::*;

use crate::error::EfiError;
use crate::firmware::{Exchange, Log};

verus! {

/// Operations on the boot storage that boot flows call. A platform's storage stack implements
/// them.
pub trait BootStorageService {
    /// The locks that were asked for, oldest first, each with its reply.
    spec fn locked(&self) -> Log;

    /// Write-protects the boot partition until the next power cycle. How is up to the storage
    /// stack. `Ok` once the partition is locked.
    fn lock_boot_partition(&mut self) -> (reply: Result<(), EfiError>)
        ensures
            final(self).locked() == old(self).locked().push(Exchange::LockBootPartition { reply }),
    ;
}

} // verus!
