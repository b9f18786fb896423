//! Laws of signalling the phases of a boot.
use vstd::prelude::*;

use crate::error;
use crate::error::EfiError;
use crate::firmware::Exchange;
use crate::helpers::events;

verus! {

/// To signal a group, an event is created that joins the group and is notified by signal at callback
/// level; that very event is signalled and then closed, whether or not signalling it succeeded. An
/// event that cannot be created is the end. The outcome is the first failure.
pub proof fn group_is_signalled_by_an_event(
    group: Seq<u8>,
    exchanges: Seq<Exchange>,
    outcome: Result<(), EfiError>,
)
    requires
        events::signals_group(group, exchanges, outcome),
    ensures
        exchanges.len() == 1 || exchanges.len() == 3,
        exchanges[0] matches Exchange::CreateEvent { event_type, notify_tpl, group: joined, .. }
            && event_type == 0x200 && notify_tpl == 8 && joined == group,
        exchanges[0]->CreateEvent_reply matches Err(status) ==> exchanges.len() == 1 && (
        outcome matches Err(failure) && failure == error::error_of(status)),
        exchanges[0]->CreateEvent_reply matches Ok(created) ==> exchanges.len() == 3 && (
        exchanges[1] matches Exchange::SignalEvent { event, .. } && event == created) && (
        exchanges[2] matches Exchange::CloseEvent { event, .. } && event == created) && match (
            exchanges[1]->SignalEvent_reply,
            exchanges[2]->CloseEvent_reply,
        ) {
            (Err(status), _) => outcome matches Err(failure) && failure == error::error_of(status),
            (Ok(_), Err(status)) => outcome matches Err(failure) && failure == error::error_of(
                status,
            ),
            (Ok(_), Ok(_)) => outcome is Ok,
        },
{
}

/// A group is signalled, with some outcome.
pub proof fn signals_have_an_outcome(group: Seq<u8>, exchanges: Seq<Exchange>) -> (outcome: Result<
    (),
    EfiError,
>)
    requires
        events::signals(group, exchanges),
    ensures
        events::signals_group(group, exchanges, outcome),
{
    choose|outcome: Result<(), EfiError>| events::signals_group(group, exchanges, outcome)
}

} // verus!
