//! Enumeration of the devices of the system.
use vstd::prelude::*;

use crate::error;
use crate::error::EfiError;
use crate::firmware;
use crate::firmware::{BootServices, Exchange, Firmware, Handle, HandleSearch, Search};

verus! {

/// How often handles are listed and connected at most.
pub const MAX_PASSES: usize = 10;

/// The exchange connects every driver that is found to a controller and to what is below it.
pub open spec fn connects(exchange: Exchange, handle: Handle) -> bool {
    exchange matches Exchange::ConnectController {
        controller,
        drivers,
        remaining_path,
        recursive,
        ..
    } && controller == handle && drivers.len() == 0 && remaining_path is None && recursive
}

/// The exchanges connect the handles, one after the other.
pub open spec fn connects_each(handles: Seq<Handle>, exchanges: Seq<Exchange>) -> bool {
    &&& exchanges.len() == handles.len()
    &&& forall|i: int| 0 <= i < handles.len() ==> connects(#[trigger] exchanges[i], handles[i])
}

/// The exchanges enumerate the devices in at most `passes` passes, with that outcome. A pass lists
/// every handle and connects each of them. The first pass that lists as many handles as the one
/// before, `previous` of them, is the last.
pub open spec fn enumerates(
    previous: nat,
    passes: nat,
    exchanges: Seq<Exchange>,
    outcome: Result<(), EfiError>,
) -> bool
    decreases passes,
{
    if passes == 0 {
        exchanges.len() == 0 && outcome is Ok
    } else {
        &&& exchanges.len() > 0
        &&& exchanges[0] matches Exchange::LocateHandles { search, reply }
        &&& search == Search::AllHandles
        &&& match reply {
            Err(status) => {
                &&& exchanges.len() == 1
                &&& outcome == Err::<(), EfiError>(error::error_of(status))
            },
            Ok(handles) => {
                let pass = 1 + handles.len() as int;
                &&& pass <= exchanges.len()
                &&& connects_each(handles, exchanges.subrange(1, pass))
                &&& if handles.len() == previous {
                    exchanges.len() == pass && outcome is Ok
                } else {
                    enumerates(
                        handles.len(),
                        (passes - 1) as nat,
                        exchanges.skip(pass),
                        outcome,
                    )
                }
            },
        }
    }
}

/// Connects the handles, whatever comes of it.
fn connect_each<B: BootServices>(firmware: &mut Firmware<B>, handles: &Vec<Handle>)
    ensures
        final(firmware).follows(*old(firmware)),
        connects_each(handles@, final(firmware).since(*old(firmware))),
{
    let ghost start = *firmware;
    let mut i: usize = 0;
    assert(firmware.since(start) =~= Seq::<Exchange>::empty());
    while i < handles.len()
        invariant
            i <= handles@.len(),
            start == *old(firmware),
            firmware.follows(start),
            connects_each(handles@.take(i as int), firmware.since(start)),
        decreases handles@.len() - i,
    {
        let ghost before = firmware.since(start);
        let _ = firmware.connect_controller(handles[i], Vec::new(), None, true);
        assert(firmware.since(start).drop_last() =~= before);
        assert(forall|k: int| 0 <= k < i ==> #[trigger] firmware.since(start)[k] == before[k]);
        i += 1;
    }
    assert(handles@.take(i as int) =~= handles@);
}

/// Connects all controllers recursively, until the number of handles no longer changes, in at most
/// ten passes. `Ok` also where it still changes in the tenth.
///
/// Connecting a controller may create handles, such as those of the devices behind a bus, which
/// have to be connected in turn. Fails only where the handles cannot be listed.
pub fn connect_all<B: BootServices>(firmware: &mut Firmware<B>) -> (outcome: Result<(), EfiError>)
    ensures
        final(firmware).follows(*old(firmware)),
        enumerates(0, MAX_PASSES as nat, final(firmware).since(*old(firmware)), outcome),
{
    let ghost start = *firmware;
    let mut previous: usize = 0;
    let mut pass: usize = 0;
    assert(forall|rest: Seq<Exchange>| #[trigger] (firmware.since(start) + rest) =~= rest);
    while pass < MAX_PASSES
        invariant
            pass <= MAX_PASSES,
            start == *old(firmware),
            firmware.follows(start),
            forall|rest: Seq<Exchange>, outcome: Result<(), EfiError>|
                enumerates(previous as nat, (MAX_PASSES - pass) as nat, rest, outcome)
                    ==> #[trigger] enumerates(
                    0,
                    MAX_PASSES as nat,
                    firmware.since(start) + rest,
                    outcome,
                ),
        decreases MAX_PASSES - pass,
    {
        let ghost before = *firmware;
        let ghost left = (MAX_PASSES - pass) as nat;
        let handles = match firmware.locate_handle_buffer(HandleSearch::AllHandles) {
            Ok(handles) => handles,
            Err(status) => {
                let failure = EfiError::from_status(status);
                proof {
                    firmware::lemma_since_transitive(start, before, *firmware);
                    assert(enumerates(
                        previous as nat,
                        left,
                        firmware.since(before),
                        Err(failure),
                    ));
                }
                return Err(failure);
            },
        };
        let ghost listed = *firmware;
        connect_each(firmware, &handles);
        proof {
            firmware::lemma_since_transitive(before, listed, *firmware);
            firmware::lemma_since_transitive(start, before, *firmware);
        }
        let ghost step = firmware.since(before);
        let count: usize = handles.len();
        assert(step.subrange(1, 1 + count as int) =~= firmware.since(listed));
        if count == previous {
            assert(enumerates(previous as nat, left, step, Ok(())));
            return Ok(());
        }
        proof {
            assert forall|rest: Seq<Exchange>, outcome: Result<(), EfiError>|
                enumerates(count as nat, (left - 1) as nat, rest, outcome) implies #[trigger] enumerates(
                0,
                MAX_PASSES as nat,
                firmware.since(start) + rest,
                outcome,
            ) by {
                let all = step + rest;
                assert(all.subrange(1, 1 + count as int) =~= firmware.since(listed));
                assert(all.skip(1 + count as int) =~= rest);
                assert(enumerates(previous as nat, left, all, outcome));
                assert(firmware.since(start) + rest =~= before.since(start) + all);
            }
        }
        previous = count;
        pass += 1;
    }
    proof {
        let none = Seq::<Exchange>::empty();
        assert(enumerates(previous as nat, 0, none, Ok(())));
        assert(firmware.since(start) + none =~= firmware.since(start));
    }
    Ok(())
}

/// The exchange lists handles.
pub open spec fn lists_handles(exchange: Exchange) -> bool {
    exchange is LocateHandles
}

/// The listings among the exchanges, in order.
pub open spec fn listings(exchanges: Seq<Exchange>) -> Seq<Exchange> {
    exchanges.filter(|exchange: Exchange| lists_handles(exchange))
}

/// The listing found that many handles.
pub open spec fn found(listing: Exchange, count: nat) -> bool {
    listing matches Exchange::LocateHandles { reply: Ok(handles), .. } && handles.len() == count
}

/// How many handles the listing before the one at `index` found.
pub open spec fn found_before(previous: nat, listings: Seq<Exchange>, index: int) -> nat {
    if index == 0 {
        previous
    } else {
        listings[index - 1]->LocateHandles_reply->Ok_0.len()
    }
}

/// The first of the exchanges of a pass is its only listing.
proof fn lemma_listings_of_pass(handles: Seq<Handle>, pass: Seq<Exchange>, rest: Seq<Exchange>)
    requires
        pass.len() == 1 + handles.len(),
        lists_handles(pass[0]),
        connects_each(handles, pass.skip(1)),
    ensures
        listings(pass + rest) == seq![pass[0]] + listings(rest),
{
    let select = |exchange: Exchange| lists_handles(exchange);
    let first = seq![pass[0]];
    let connections = pass.skip(1);
    assert(pass + rest =~= first + connections + rest);
    Seq::filter_distributes_over_add(first + connections, rest, select);
    Seq::filter_distributes_over_add(first, connections, select);
    assert(connections.filter(select) =~= Seq::<Exchange>::empty()) by {
        broadcast use {Seq::lemma_filter_pred, Seq::lemma_filter_contains_rev};

        if connections.filter(select).len() > 0 {
            let exchange = connections.filter(select)[0];
            assert(connections.filter(select).contains(exchange));
            assert(connections.contains(exchange));
            let i = choose|i: int| 0 <= i < connections.len() && connections[i] == exchange;
            assert(connects(connections[i], handles[i]));
        }
    }
    assert(first.filter(select) =~= first) by {
        reveal(Seq::filter);
        assert(first.drop_last().filter(select) =~= Seq::<Exchange>::empty());
    }
}

/// Enumeration ends: handles are listed once per pass, and so no more often than there are passes.
pub proof fn enumeration_is_bounded(
    previous: nat,
    passes: nat,
    exchanges: Seq<Exchange>,
    outcome: Result<(), EfiError>,
)
    requires
        enumerates(previous, passes, exchanges, outcome),
    ensures
        listings(exchanges).len() <= passes,
    decreases passes,
{
    reveal(Seq::filter);
    if passes > 0 {
        if let Exchange::LocateHandles { reply: Ok(handles), .. } = exchanges[0] {
            let pass = exchanges.take(1 + handles.len() as int);
            let rest = exchanges.skip(1 + handles.len() as int);
            assert(pass.skip(1) =~= exchanges.subrange(1, 1 + handles.len() as int));
            assert(exchanges =~= pass + rest);
            lemma_listings_of_pass(handles, pass, rest);
            if handles.len() != previous {
                enumeration_is_bounded(handles.len(), (passes - 1) as nat, rest, outcome);
            } else {
                assert(rest =~= Seq::<Exchange>::empty());
            }
        } else {
            assert(exchanges.drop_last() =~= Seq::<Exchange>::empty());
        }
    }
}

/// Enumeration that succeeds is complete, unless every pass was used up: the last listing found as
/// many handles as the one before. And it ends as soon as that holds.
pub proof fn enumeration_settles(
    previous: nat,
    passes: nat,
    exchanges: Seq<Exchange>,
    outcome: Result<(), EfiError>,
)
    requires
        enumerates(previous, passes, exchanges, outcome),
        outcome is Ok,
    ensures
        ({
            let found_by = listings(exchanges);
            &&& forall|i: int|
                0 <= i < found_by.len() ==> (#[trigger] found_by[i])->LocateHandles_reply is Ok
            &&& forall|i: int|
                0 <= i < found_by.len() - 1 ==> !found(
                    #[trigger] found_by[i],
                    found_before(previous, found_by, i),
                )
            &&& found_by.len() == passes || (found_by.len() > 0 && found(
                found_by.last(),
                found_before(previous, found_by, found_by.len() - 1),
            ))
        }),
    decreases passes,
{
    if passes > 0 {
        if let Exchange::LocateHandles { reply: Ok(handles), .. } = exchanges[0] {
            let pass = exchanges.take(1 + handles.len() as int);
            let rest = exchanges.skip(1 + handles.len() as int);
            assert(pass.skip(1) =~= exchanges.subrange(1, 1 + handles.len() as int));
            assert(exchanges =~= pass + rest);
            lemma_listings_of_pass(handles, pass, rest);
            let found_by = listings(exchanges);
            if handles.len() != previous {
                enumeration_settles(handles.len(), (passes - 1) as nat, rest, outcome);
                let later = listings(rest);
                assert(forall|i: int|
                    1 <= i < found_by.len() ==> #[trigger] found_by[i] == later[i - 1]);
                assert(found_by[0] == exchanges[0]);
            } else {
                reveal(Seq::filter);
                assert(rest =~= Seq::<Exchange>::empty());
                assert(found_by =~= seq![exchanges[0]]);
            }
        }
    } else {
        reveal(Seq::filter);
    }
}

/// Every handle that is listed is connected, right after the listing and in its order.
pub proof fn enumeration_connects_every_handle(
    previous: nat,
    passes: nat,
    exchanges: Seq<Exchange>,
    outcome: Result<(), EfiError>,
    listing: int,
    index: int,
)
    requires
        enumerates(previous, passes, exchanges, outcome),
        0 <= listing < exchanges.len(),
        exchanges[listing] matches Exchange::LocateHandles { reply: Ok(handles), .. } && 0 <= index
            < handles.len(),
    ensures
        listing + 1 + index < exchanges.len(),
        connects(
            exchanges[listing + 1 + index],
            exchanges[listing]->LocateHandles_reply->Ok_0[index],
        ),
    decreases passes,
{
    if passes > 0 {
        if let Exchange::LocateHandles { reply: Ok(handles), .. } = exchanges[0] {
            let pass = 1 + handles.len() as int;
            let connections = exchanges.subrange(1, pass);
            if listing == 0 {
                assert(connects(connections[index], handles[index]));
            } else if listing < pass {
                assert(connects(connections[listing - 1], handles[listing - 1]));
            } else {
                enumeration_connects_every_handle(
                    handles.len(),
                    (passes - 1) as nat,
                    exchanges.skip(pass),
                    outcome,
                    listing - pass,
                    index,
                );
            }
        }
    }
}

/// Enumeration only lists handles and connects controllers.
pub proof fn lemma_enumeration_only_lists_and_connects(
    previous: nat,
    passes: nat,
    exchanges: Seq<Exchange>,
    outcome: Result<(), EfiError>,
    i: int,
)
    requires
        enumerates(previous, passes, exchanges, outcome),
        0 <= i < exchanges.len(),
    ensures
        exchanges[i] is LocateHandles || exchanges[i] is ConnectController,
    decreases passes,
{
    if passes > 0 {
        if let Exchange::LocateHandles { reply: Ok(handles), .. } = exchanges[0] {
            let pass = 1 + handles.len() as int;
            if 0 < i < pass {
                assert(connects(exchanges.subrange(1, pass)[i - 1], handles[i - 1]));
            } else if i >= pass {
                lemma_enumeration_only_lists_and_connects(
                    handles.len(),
                    (passes - 1) as nat,
                    exchanges.skip(pass),
                    outcome,
                    i - pass,
                );
            }
        }
    }
}

/// Enumeration fails exactly where handles could not be listed, and that is then the last thing it
/// tried. That a controller could not be connected is no failure.
pub proof fn enumeration_fails_with_listing(
    previous: nat,
    passes: nat,
    exchanges: Seq<Exchange>,
    outcome: Result<(), EfiError>,
)
    requires
        enumerates(previous, passes, exchanges, outcome),
    ensures
        outcome is Err <==> exchanges.len() > 0 && (exchanges.last() matches
            Exchange::LocateHandles { reply: Err(_), .. }),
        outcome matches Err(failure) ==> failure == error::error_of(
            exchanges.last()->LocateHandles_reply->Err_0,
        ),
    decreases passes,
{
    if passes > 0 {
        if let Exchange::LocateHandles { reply: Ok(handles), .. } = exchanges[0] {
            let pass = 1 + handles.len() as int;
            let connections = exchanges.subrange(1, pass);
            let rest = exchanges.skip(pass);
            if handles.len() > 0 {
                assert(connects(connections[pass - 2], handles[pass - 2]));
            }
            if handles.len() != previous {
                enumeration_fails_with_listing(handles.len(), (passes - 1) as nat, rest, outcome);
                if rest.len() > 0 {
                    assert(rest.last() == exchanges.last());
                }
            }
        }
    }
}

} // verus!
