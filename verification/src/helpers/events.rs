//! Signalling the phases of a boot.
use vstd::prelude::*;

use crate::error;
use crate::error::{EfiError, Status};
use crate::firmware::{BootServices, Exchange, Firmware, EVENT_NOTIFY_SIGNAL, TPL_CALLBACK};
use crate::guid;
use crate::guid::Guid;

verus! {

/// The outcome of two calls of which both must succeed: the first failure, if any.
pub open spec fn first_failure(first: Result<(), Status>, second: Result<(), Status>) -> Result<
    (),
    EfiError,
> {
    match (first, second) {
        (Err(status), _) => Err(error::error_of(status)),
        (Ok(_), Err(status)) => Err(error::error_of(status)),
        (Ok(_), Ok(_)) => Ok(()),
    }
}

/// The exchanges signal an event group, with that outcome: an event is created in the group; where
/// that succeeds, the event is signalled and then closed, whether or not signalling it succeeded.
pub open spec fn signals_group(
    group: Seq<u8>,
    exchanges: Seq<Exchange>,
    outcome: Result<(), EfiError>,
) -> bool {
    &&& exchanges.len() > 0
    &&& exchanges[0] matches Exchange::CreateEvent { event_type, notify_tpl, group: joined, reply }
    &&& event_type == EVENT_NOTIFY_SIGNAL
    &&& notify_tpl == TPL_CALLBACK
    &&& joined == group
    &&& match reply {
        Err(status) => {
            &&& exchanges.len() == 1
            &&& outcome == Err::<(), EfiError>(error::error_of(status))
        },
        Ok(event) => {
            &&& exchanges.len() == 3
            &&& exchanges[1] matches Exchange::SignalEvent { event: signalled, reply: signal_reply }
            &&& exchanges[2] matches Exchange::CloseEvent { event: closed, reply: close_reply }
            &&& signalled == event
            &&& closed == event
            &&& outcome == first_failure(signal_reply, close_reply)
        },
    }
}

/// The exchanges signal an event group, with some outcome.
pub open spec fn signals(group: Seq<u8>, exchanges: Seq<Exchange>) -> bool {
    exists|outcome: Result<(), EfiError>| signals_group(group, exchanges, outcome)
}

/// Signals an event group.
fn signal_group<B: BootServices>(firmware: &mut Firmware<B>, group: Guid) -> (outcome: Result<
    (),
    EfiError,
>)
    ensures
        final(firmware).follows(*old(firmware)),
        signals_group(group@, final(firmware).since(*old(firmware)), outcome),
{
    let event = match firmware.create_event_ex(EVENT_NOTIFY_SIGNAL, TPL_CALLBACK, group) {
        Ok(event) => event,
        Err(status) => {
            return Err(EfiError::from_status(status));
        },
    };
    let signal_reply = firmware.signal_event(event);
    let close_reply = firmware.close_event(event);
    if let Err(status) = signal_reply {
        return Err(EfiError::from_status(status));
    }
    if let Err(status) = close_reply {
        return Err(EfiError::from_status(status));
    }
    Ok(())
}

/// Signals EndOfDxe, at which security components lock the system down.
pub fn signal_bds_phase_entry<B: BootServices>(firmware: &mut Firmware<B>) -> (outcome: Result<
    (),
    EfiError,
>)
    ensures
        final(firmware).follows(*old(firmware)),
        signals_group(
            guid::spec_end_of_dxe_guid(),
            final(firmware).since(*old(firmware)),
            outcome,
        ),
{
    signal_group(firmware, Guid::end_of_dxe())
}

/// Signals ReadyToBoot, which tells drivers that the first boot option is about to be tried.
pub fn signal_ready_to_boot<B: BootServices>(firmware: &mut Firmware<B>) -> (outcome: Result<
    (),
    EfiError,
>)
    ensures
        final(firmware).follows(*old(firmware)),
        signals_group(
            guid::spec_ready_to_boot_guid(),
            final(firmware).since(*old(firmware)),
            outcome,
        ),
{
    signal_group(firmware, Guid::ready_to_boot())
}

/// Whatever becomes of a created event, it is closed: every event that the exchanges create is
/// closed by a later one.
pub proof fn created_event_is_closed(
    group: Seq<u8>,
    exchanges: Seq<Exchange>,
    outcome: Result<(), EfiError>,
    created: int,
)
    requires
        signals_group(group, exchanges, outcome),
        0 <= created < exchanges.len(),
        exchanges[created] is CreateEvent,
        exchanges[created]->CreateEvent_reply is Ok,
    ensures
        exists|closed: int|
            created < closed < exchanges.len() && (#[trigger] exchanges[closed] matches
                Exchange::CloseEvent { event, .. } && event
                == exchanges[created]->CreateEvent_reply->Ok_0),
{
    assert(exchanges[2] is CloseEvent);
}

} // verus!
