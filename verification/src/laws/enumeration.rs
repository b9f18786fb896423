//! Laws of device enumeration.
use vstd::prelude::*;

use crate::connect_controller::ConnectController;
use crate::error::EfiError;
use crate::firmware::{BootServices, Exchange, Handle, Search};
use crate::helpers::{connect, interleave};
use crate::strategies::ConnectAllStrategy;

verus! {

/// Devices are enumerated in at most ten passes, and drivers dispatched in at most ten rounds.
pub proof fn enumeration_has_ten_passes()
    ensures
        connect::MAX_PASSES == 10,
        interleave::MAX_ROUNDS == 10,
{
}

/// Handles are listed at most once in each pass, and it is all handles that are listed.
pub proof fn listings_are_counted_by_passes(
    previous: nat,
    passes: nat,
    exchanges: Seq<Exchange>,
    outcome: Result<(), EfiError>,
)
    requires
        connect::enumerates(previous, passes, exchanges, outcome),
    ensures
        exchanges.filter(|exchange: Exchange| exchange is LocateHandles).len() <= passes,
        passes > 0 ==> exchanges.len() > 0 && exchanges[0] is LocateHandles,
        forall|i: int|
            0 <= i < exchanges.len() ==> (#[trigger] exchanges[i] matches Exchange::LocateHandles {
                search,
                ..
            } ==> search == Search::AllHandles),
{
    connect::enumeration_is_bounded(previous, passes, exchanges, outcome);
    lemma_listings(exchanges);
    assert forall|i: int|
        0 <= i < exchanges.len() implies (#[trigger] exchanges[i] matches Exchange::LocateHandles {
        search,
        ..
    } ==> search == Search::AllHandles) by {
        lemma_searches(previous, passes, exchanges, outcome, i);
    }
}

/// What lists handles is what locates them.
proof fn lemma_listings(exchanges: Seq<Exchange>)
    ensures
        exchanges.filter(|exchange: Exchange| exchange is LocateHandles) == connect::listings(
            exchanges,
        ),
    decreases exchanges.len(),
{
    reveal(Seq::filter);
    if exchanges.len() > 0 {
        lemma_listings(exchanges.drop_last());
    }
}

/// All handles are listed.
proof fn lemma_searches(
    previous: nat,
    passes: nat,
    exchanges: Seq<Exchange>,
    outcome: Result<(), EfiError>,
    i: int,
)
    requires
        connect::enumerates(previous, passes, exchanges, outcome),
        0 <= i < exchanges.len(),
    ensures
        exchanges[i] matches Exchange::LocateHandles { search, .. } ==> search
            == Search::AllHandles,
    decreases passes,
{
    if let Exchange::LocateHandles { reply: Ok(handles), .. } = exchanges[0] {
        let pass = 1 + handles.len() as int;
        if 0 < i < pass {
            assert(connect::connects(exchanges.subrange(1, pass)[i - 1], handles[i - 1]));
        } else if i >= pass {
            lemma_searches(
                handles.len(),
                (passes - 1) as nat,
                exchanges.skip(pass),
                outcome,
                i - pass,
            );
        }
    }
}

/// Every handle that is listed is connected, right after the listing and in its order: whatever
/// drivers are found for it, and all that is below it. Behind them comes the next listing or nothing.
pub proof fn every_listed_handle_is_connected(
    previous: nat,
    passes: nat,
    exchanges: Seq<Exchange>,
    outcome: Result<(), EfiError>,
    listing: int,
    handles: Seq<Handle>,
)
    requires
        connect::enumerates(previous, passes, exchanges, outcome),
        0 <= listing < exchanges.len(),
        exchanges[listing] matches Exchange::LocateHandles { reply, .. } && reply == Ok::<
            Seq<Handle>,
            usize,
        >(handles),
    ensures
        listing + handles.len() < exchanges.len(),
        forall|i: int|
            listing < i <= listing + handles.len() ==> (#[trigger] exchanges[i] matches
                Exchange::ConnectController {
                controller,
                drivers,
                remaining_path,
                recursive,
                ..
            } && controller == handles[i - listing - 1] && drivers == Seq::<Handle>::empty()
                && remaining_path is None && recursive),
        listing + handles.len() + 1 < exchanges.len() ==> exchanges[listing + handles.len() + 1] is
            LocateHandles,
    decreases passes,
{
    if let Exchange::LocateHandles { reply: Ok(first), .. } = exchanges[0] {
        let pass = 1 + first.len() as int;
        let connections = exchanges.subrange(1, pass);
        if listing == 0 {
            assert forall|i: int|
                listing < i <= listing + handles.len() implies (#[trigger] exchanges[i] matches
                Exchange::ConnectController { controller, drivers, remaining_path, recursive, .. }
                && controller == handles[i - listing - 1] && drivers == Seq::<Handle>::empty()
                && remaining_path is None && recursive) by {
                assert(connect::connects(connections[i - 1], handles[i - 1]));
                assert(exchanges[i]->ConnectController_drivers =~= Seq::<Handle>::empty());
            }
            if pass < exchanges.len() {
                let rest = exchanges.skip(pass);
                assert(connect::enumerates(first.len(), (passes - 1) as nat, rest, outcome));
                assert(rest[0] == exchanges[pass]);
            }
        } else if listing < pass {
            assert(connect::connects(connections[listing - 1], first[listing - 1]));
        } else {
            let rest = exchanges.skip(pass);
            assert(rest[listing - pass] == exchanges[listing]);
            every_listed_handle_is_connected(
                first.len(),
                (passes - 1) as nat,
                rest,
                outcome,
                listing - pass,
                handles,
            );
            assert(forall|i: int|
                pass <= i < exchanges.len() ==> #[trigger] exchanges[i] == rest[i - pass]);
        }
    }
}

/// The listing that begins a pass is ahead of those of the other passes.
proof fn lemma_listings_of_pass(
    previous: nat,
    passes: nat,
    exchanges: Seq<Exchange>,
    outcome: Result<(), EfiError>,
)
    requires
        connect::enumerates(previous, passes, exchanges, outcome),
        passes > 0,
    ensures
        ({
            let select = |exchange: Exchange| exchange is LocateHandles;
            match exchanges[0]->LocateHandles_reply {
                Err(_) => exchanges.filter(select) == seq![exchanges[0]],
                Ok(handles) => exchanges.filter(select) == seq![exchanges[0]] + exchanges.skip(
                    1 + handles.len() as int,
                ).filter(select),
            }
        }),
{
    let select = |exchange: Exchange| exchange is LocateHandles;
    let first = seq![exchanges[0]];
    assert(first.filter(select) =~= first) by {
        reveal(Seq::filter);
        assert(first.drop_last().filter(select) =~= Seq::<Exchange>::empty());
    }
    match exchanges[0]->LocateHandles_reply {
        Err(_) => {
            assert(exchanges =~= first);
        },
        Ok(handles) => {
            let pass = 1 + handles.len() as int;
            let connections = exchanges.subrange(1, pass);
            let rest = exchanges.skip(pass);
            assert(exchanges =~= first + connections + rest);
            Seq::filter_distributes_over_add(first + connections, rest, select);
            Seq::filter_distributes_over_add(first, connections, select);
            assert(connections.filter(select) =~= Seq::<Exchange>::empty()) by {
                broadcast use {Seq::lemma_filter_pred, Seq::lemma_filter_contains_rev};

                if connections.filter(select).len() > 0 {
                    let exchange = connections.filter(select)[0];
                    assert(connections.filter(select).contains(exchange));
                    assert(connections.contains(exchange));
                    let i = choose|i: int| 0 <= i < connections.len() && connections[i] == exchange;
                    assert(connect::connects(connections[i], handles[i]));
                }
            }
            assert(exchanges.filter(select) =~= first + rest.filter(select));
        },
    }
}

/// Enumeration goes on as long as a listing succeeds and finds another number of handles than the
/// one before, or than `previous` at first, and as long as passes are left; and no longer. It
/// succeeds exactly where the last listing does.
pub proof fn enumeration_goes_on_until_settled(
    previous: nat,
    passes: nat,
    exchanges: Seq<Exchange>,
    outcome: Result<(), EfiError>,
)
    requires
        connect::enumerates(previous, passes, exchanges, outcome),
    ensures
        ({
            let listings = exchanges.filter(|exchange: Exchange| exchange is LocateHandles);
            let counts = Seq::new(
                listings.len() + 1,
                |i: int|
                    if i == 0 {
                        previous
                    } else {
                        listings[i - 1]->LocateHandles_reply->Ok_0.len()
                    },
            );
            let last = listings.len() - 1;
            &&& passes > 0 ==> last >= 0
            &&& forall|i: int|
                0 <= i < last ==> (#[trigger] listings[i])->LocateHandles_reply is Ok
            &&& forall|i: int| 0 <= i < last ==> #[trigger] counts[i] != counts[i + 1]
            &&& last >= 0 ==> (outcome is Ok <==> listings[last]->LocateHandles_reply is Ok)
            &&& outcome is Ok && listings.len() < passes ==> counts[last] == counts[last + 1]
        }),
    decreases passes,
{
    let select = |exchange: Exchange| exchange is LocateHandles;
    let listings = exchanges.filter(select);
    if passes == 0 {
        reveal(Seq::filter);
    } else {
        lemma_listings_of_pass(previous, passes, exchanges, outcome);
        assert(listings[0] == exchanges[0]);
        if let Ok(handles) = exchanges[0]->LocateHandles_reply {
            let rest = exchanges.skip(1 + handles.len() as int);
            let later = rest.filter(select);
            if handles.len() == previous {
                reveal(Seq::filter);
                assert(rest =~= Seq::<Exchange>::empty());
                assert(listings =~= seq![exchanges[0]]);
            } else {
                enumeration_goes_on_until_settled(
                    handles.len(),
                    (passes - 1) as nat,
                    rest,
                    outcome,
                );
                let counts = Seq::new(
                    listings.len() + 1,
                    |i: int|
                        if i == 0 {
                            previous
                        } else {
                            listings[i - 1]->LocateHandles_reply->Ok_0.len()
                        },
                );
                let counts_later = Seq::new(
                    later.len() + 1,
                    |i: int|
                        if i == 0 {
                            handles.len()
                        } else {
                            later[i - 1]->LocateHandles_reply->Ok_0.len()
                        },
                );
                assert(forall|i: int|
                    1 <= i < listings.len() ==> #[trigger] listings[i] == later[i - 1]);
                assert forall|i: int| 1 <= i < counts.len() implies #[trigger] counts[i]
                    == counts_later[i - 1] by {
                    assert(listings[i - 1] == if i == 1 {
                        exchanges[0]
                    } else {
                        later[i - 2]
                    });
                }
                let last = listings.len() - 1;
                assert forall|i: int| 0 <= i < last implies #[trigger] counts[i] != counts[i
                    + 1] by {
                    assert(counts[i + 1] == counts_later[i]);
                    if i > 0 {
                        assert(counts[i] == counts_later[i - 1]);
                        assert(counts_later[i - 1] != counts_later[i - 1 + 1]);
                    }
                }
                assert forall|i: int| 0 <= i < last implies (
                #[trigger] listings[i])->LocateHandles_reply is Ok by {
                    if i > 0 {
                        assert(listings[i] == later[i - 1]);
                    }
                }
                if later.len() > 0 {
                    assert(listings[last] == later[last - 1]);
                    assert(counts[last] == counts_later[last - 1]);
                    assert(counts[last + 1] == counts_later[last]);
                } else {
                    assert(connect::enumerates(handles.len(), 0, rest, outcome));
                }
            }
        }
    }
}

/// Without rounds nothing happens. Otherwise the strategy connects controllers, by boot services
/// alone. Where that fails, that is the end; where it succeeds, drivers are dispatched. Where that
/// fails or finds none, that is the end; where it finds some, the other rounds follow.
pub proof fn rounds_connect_then_dispatch<B: BootServices, C: ConnectController<B>>(
    strategy: C,
    rounds: nat,
    exchanges: Seq<Exchange>,
    outcome: Result<(), EfiError>,
) -> (round: (int, Result<(), EfiError>))
    requires
        interleave::interleaves::<B, C>(strategy, rounds, exchanges, outcome),
    ensures
        rounds == 0 ==> exchanges.len() == 0 && outcome is Ok,
        rounds > 0 ==> {
            let (connection, connected) = round;
            &&& 0 <= connection <= exchanges.len()
            &&& strategy.performed(exchanges.take(connection), connected)
            &&& forall|i: int|
                0 <= i < connection ==> !(#[trigger] exchanges[i] is SetVariable)
                    && !(exchanges[i] is Dispatch) && !(exchanges[i] is LockBootPartition)
                    && !(exchanges[i] is HandleFailure)
            &&& connected matches Err(failure) ==> exchanges.len() == connection && (
            outcome matches Err(returned) && returned == failure)
            &&& connected is Ok ==> connection < exchanges.len() && (exchanges[connection] matches
                Exchange::Dispatch { reply } && match reply {
                Err(failure) => exchanges.len() == connection + 1 && (outcome matches Err(returned)
                    && returned == failure),
                Ok(false) => exchanges.len() == connection + 1 && outcome is Ok,
                Ok(true) => interleave::interleaves::<B, C>(
                    strategy,
                    (rounds - 1) as nat,
                    exchanges.skip(connection + 1),
                    outcome,
                ),
            })
        },
{
    if rounds == 0 {
        (0, Ok(()))
    } else {
        let (connection, connected) = choose|connection: int, connected: Result<(), EfiError>|
            #[trigger] interleave::starts_round::<B, C>(strategy, exchanges, connection, connected)
                && interleave::continues_round::<B, C>(
                strategy,
                rounds,
                exchanges,
                outcome,
                connection,
                connected,
            );
        assert forall|i: int| 0 <= i < connection implies !(#[trigger] exchanges[i] is SetVariable)
            && !(exchanges[i] is Dispatch) && !(exchanges[i] is LockBootPartition)
                    && !(exchanges[i] is HandleFailure) by {
            assert(exchanges.take(connection)[i].calls_boot_services());
        }
        (connection, connected)
    }
}

/// The strategy that connects all controllers enumerates them in ten passes, and takes no listing
/// for the one before the first.
pub proof fn connect_all_enumerates<B: BootServices>(
    strategy: ConnectAllStrategy,
    exchanges: Seq<Exchange>,
    outcome: Result<(), EfiError>,
)
    ensures
        ConnectController::<B>::performed(&strategy, exchanges, outcome) <==> connect::enumerates(
            0,
            10,
            exchanges,
            outcome,
        ),
{
}

} // verus!
