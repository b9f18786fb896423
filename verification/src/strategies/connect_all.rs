//! The default connection strategy: connect all controllers.
use vstd::prelude::*;

use crate::connect_controller::ConnectController;
use crate::error::EfiError;
use crate::firmware::{BootServices, Exchange, Firmware};
use crate::helpers::{connect, interleave};

verus! {

/// Connects all controllers recursively, with [`connect_all`](crate::helpers::connect_all).
///
/// This is the strategy of [`SimpleBootManager::new`](crate::SimpleBootManager::new).
#[derive(Clone, Copy, Debug)]
pub struct ConnectAllStrategy;

impl<B: BootServices> ConnectController<B> for ConnectAllStrategy {
    open spec fn performed(&self, exchanges: Seq<Exchange>, outcome: Result<(), EfiError>) -> bool {
        connect::enumerates(0, connect::MAX_PASSES as nat, exchanges, outcome)
    }

    fn connect(&self, firmware: &mut Firmware<B>) -> (outcome: Result<(), EfiError>) {
        let ghost start = *firmware;
        let outcome = connect::connect_all(firmware);
        assert forall|i: int| 0 <= i < firmware.since(start).len() implies (
        #[trigger] firmware.since(start)[i]).calls_boot_services() by {
            connect::lemma_enumeration_only_lists_and_connects(
                0,
                connect::MAX_PASSES as nat,
                firmware.since(start),
                outcome,
                i,
            );
        }
        outcome
    }
}

/// Connecting all controllers enumerates devices and does nothing else.
pub proof fn connect_all_only_enumerates<B: BootServices>(strategy: ConnectAllStrategy)
    ensures
        interleave::only_enumerates::<B, ConnectAllStrategy>(strategy),
{
    assert forall|exchanges: Seq<Exchange>, outcome: Result<(), EfiError>, i: int|
        #![trigger ConnectController::<B>::performed(&strategy, exchanges, outcome), exchanges[i]]
        ConnectController::<B>::performed(&strategy, exchanges, outcome) && 0 <= i
            < exchanges.len() implies exchanges[i].enumerates_devices() by {
        connect::lemma_enumeration_only_lists_and_connects(
            0,
            connect::MAX_PASSES as nat,
            exchanges,
            outcome,
            i,
        );
    }
}

} // verus!
