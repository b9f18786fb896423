//! Controller connection interleaved with driver dispatch.
use vstd::prelude::*;

use crate::connect_controller::ConnectController;
use crate::error::EfiError;
use crate::firmware;
use crate::firmware::{BootServices, DxeDispatch, Exchange, Firmware};

verus! {

/// How often drivers are dispatched at most.
pub const MAX_ROUNDS: usize = 10;

/// The first `connection` exchanges connect controllers. The next dispatches drivers, unless the
/// connection failed.
pub open spec fn starts_round<B: BootServices, C: ConnectController<B>>(
    strategy: C,
    exchanges: Seq<Exchange>,
    connection: int,
    connected: Result<(), EfiError>,
) -> bool {
    &&& 0 <= connection <= exchanges.len()
    &&& strategy.performed(exchanges.take(connection), connected)
    &&& firmware::only_boot_services(exchanges.take(connection))
    &&& connected is Ok ==> connection < exchanges.len() && exchanges[connection] is Dispatch
}

/// The exchanges connect controllers and dispatch drivers in turn, in at most `rounds` rounds, with
/// that outcome. They end at the first failure, or once no driver is dispatched.
pub open spec fn interleaves<B: BootServices, C: ConnectController<B>>(
    strategy: C,
    rounds: nat,
    exchanges: Seq<Exchange>,
    outcome: Result<(), EfiError>,
) -> bool
    decreases rounds, 1nat,
{
    if rounds == 0 {
        exchanges.len() == 0 && outcome is Ok
    } else {
        exists|connection: int, connected: Result<(), EfiError>|
            #[trigger] starts_round::<B, C>(strategy, exchanges, connection, connected)
                && continues_round::<B, C>(
                strategy,
                rounds,
                exchanges,
                outcome,
                connection,
                connected,
            )
    }
}

/// What follows the start of a round: nothing, where it failed or dispatched no driver, and the
/// other rounds where it dispatched one.
pub open spec fn continues_round<B: BootServices, C: ConnectController<B>>(
    strategy: C,
    rounds: nat,
    exchanges: Seq<Exchange>,
    outcome: Result<(), EfiError>,
    connection: int,
    connected: Result<(), EfiError>,
) -> bool
    decreases rounds, 0nat,
{
    match connected {
        Err(failure) => {
            &&& exchanges.len() == connection
            &&& outcome == Err::<(), EfiError>(failure)
        },
        Ok(_) => match exchanges[connection]->Dispatch_reply {
            Err(failure) => {
                &&& exchanges.len() == connection + 1
                &&& outcome == Err::<(), EfiError>(failure)
            },
            Ok(false) => exchanges.len() == connection + 1 && outcome is Ok,
            Ok(true) => rounds > 0 && interleaves::<B, C>(
                strategy,
                (rounds - 1) as nat,
                exchanges.skip(connection + 1),
                outcome,
            ),
        },
    }
}

/// Connects controllers and dispatches drivers in turn, until no driver is dispatched, in at most
/// ten rounds. `Ok` also where drivers are still dispatched in the tenth.
///
/// A driver that is dispatched may have controllers to connect, and a controller that is connected
/// may bring drivers to dispatch. Fails where a connection or a dispatch does.
pub fn interleave_connect_and_dispatch<B: BootServices, C: ConnectController<B>, D: DxeDispatch>(
    strategy: &C,
    firmware: &mut Firmware<B>,
    dxe_dispatch: &mut D,
) -> (outcome: Result<(), EfiError>)
    ensures
        final(firmware).follows(*old(firmware)),
        interleaves::<B, C>(
            *strategy,
            MAX_ROUNDS as nat,
            final(firmware).since(*old(firmware)),
            outcome,
        ),
        final(dxe_dispatch).dispatched() == old(dxe_dispatch).dispatched() + firmware::dispatches(
            final(firmware).since(*old(firmware)),
        ),
{
    let ghost start = *firmware;
    let ghost asked = dxe_dispatch.dispatched();
    let mut round: usize = 0;
    proof {
        assert(forall|rest: Seq<Exchange>| #[trigger] (firmware.since(start) + rest) =~= rest);
        firmware::lemma_only_boot_services(firmware.since(start));
        assert(asked + Seq::<Exchange>::empty() =~= asked);
    }
    while round < MAX_ROUNDS
        invariant
            round <= MAX_ROUNDS,
            start == *old(firmware),
            asked == old(dxe_dispatch).dispatched(),
            firmware.follows(start),
            dxe_dispatch.dispatched() == asked + firmware::dispatches(firmware.since(start)),
            forall|rest: Seq<Exchange>, outcome: Result<(), EfiError>|
                interleaves::<B, C>(*strategy, (MAX_ROUNDS - round) as nat, rest, outcome)
                    ==> #[trigger] interleaves::<B, C>(
                    *strategy,
                    MAX_ROUNDS as nat,
                    firmware.since(start) + rest,
                    outcome,
                ),
        decreases MAX_ROUNDS - round,
    {
        let ghost before = *firmware;
        let ghost left = (MAX_ROUNDS - round) as nat;
        let connected = strategy.connect(firmware);
        let ghost middle = *firmware;
        let ghost connection = middle.since(before).len() as int;
        proof {
            firmware::lemma_since_transitive(start, before, middle);
            firmware::lemma_filter_add(before.since(start), middle.since(before));
            firmware::lemma_only_boot_services(middle.since(before));
            assert(middle.since(before).take(connection) =~= middle.since(before));
        }
        if let Err(failure) = connected {
            assert(starts_round::<B, C>(*strategy, middle.since(before), connection, connected));
            return Err(failure);
        }
        let dispatched = firmware.dispatch(dxe_dispatch);
        let ghost step = firmware.since(before);
        proof {
            firmware::lemma_since_transitive(before, middle, *firmware);
            firmware::lemma_since_transitive(start, before, *firmware);
            firmware::lemma_filter_push(middle.since(start), firmware.since(start).last());
            assert(firmware.since(start) =~= middle.since(start).push(
                firmware.since(start).last(),
            ));
            assert(step.take(connection) =~= middle.since(before));
        }
        match dispatched {
            Err(failure) => {
                assert(starts_round::<B, C>(*strategy, step, connection, connected));
                return Err(failure);
            },
            Ok(false) => {
                assert(starts_round::<B, C>(*strategy, step, connection, connected));
                return Ok(());
            },
            Ok(true) => {
                proof {
                    assert forall|rest: Seq<Exchange>, outcome: Result<(), EfiError>|
                        interleaves::<B, C>(
                            *strategy,
                            (left - 1) as nat,
                            rest,
                            outcome,
                        ) implies #[trigger] interleaves::<B, C>(
                        *strategy,
                        MAX_ROUNDS as nat,
                        firmware.since(start) + rest,
                        outcome,
                    ) by {
                        let all = step + rest;
                        assert(all.take(connection) =~= middle.since(before));
                        assert(all.skip(connection + 1) =~= rest);
                        assert(starts_round::<B, C>(*strategy, all, connection, connected));
                        assert(firmware.since(start) + rest =~= before.since(start) + all);
                    }
                }
            },
        }
        round += 1;
    }
    proof {
        let none = Seq::<Exchange>::empty();
        assert(interleaves::<B, C>(*strategy, 0, none, Ok(())));
        assert(firmware.since(start) + none =~= firmware.since(start));
    }
    Ok(())
}

/// The strategy enumerates devices and does nothing else.
pub open spec fn only_enumerates<B: BootServices, C: ConnectController<B>>(strategy: C) -> bool {
    forall|exchanges: Seq<Exchange>, outcome: Result<(), EfiError>, i: int|
        #![trigger strategy.performed(exchanges, outcome), exchanges[i]]
        strategy.performed(exchanges, outcome) && 0 <= i < exchanges.len()
            ==> exchanges[i].enumerates_devices()
}

/// A round in which drivers were dispatched has one dispatch, and a connection that failed none.
proof fn lemma_dispatches_of_round(connection: Seq<Exchange>, rest: Seq<Exchange>)
    requires
        firmware::only_boot_services(connection),
    ensures
        firmware::dispatches(connection) == Seq::<Exchange>::empty(),
        rest.len() > 0 && rest[0] is Dispatch ==> firmware::dispatches(connection + rest) == seq![
            rest[0],
        ] + firmware::dispatches(rest.skip(1)),
{
    firmware::lemma_only_boot_services(connection);
    if rest.len() > 0 && rest[0] is Dispatch {
        let none = Seq::<Exchange>::empty();
        let first = none.push(rest[0]);
        assert(rest =~= first + rest.skip(1));
        firmware::lemma_filter_add(connection, rest);
        firmware::lemma_filter_add(first, rest.skip(1));
        firmware::lemma_filter_push(none, rest[0]);
        firmware::lemma_only_boot_services(none);
        assert(first =~= seq![rest[0]]);
    }
}

/// Interleaving calls boot services and dispatches drivers, and nothing else. Where the strategy
/// only enumerates devices, so does interleaving.
pub proof fn lemma_kinds_of_interleaving<B: BootServices, C: ConnectController<B>>(
    strategy: C,
    rounds: nat,
    exchanges: Seq<Exchange>,
    outcome: Result<(), EfiError>,
    i: int,
)
    requires
        interleaves::<B, C>(strategy, rounds, exchanges, outcome),
        0 <= i < exchanges.len(),
    ensures
        exchanges[i].calls_boot_services() || exchanges[i] is Dispatch,
        only_enumerates::<B, C>(strategy) ==> exchanges[i].enumerates_devices()
            || exchanges[i] is Dispatch,
    decreases rounds,
{
    if rounds > 0 {
        let (connection, connected) = choose|connection: int, connected: Result<(), EfiError>|
            #[trigger] starts_round::<B, C>(strategy, exchanges, connection, connected)
                && continues_round::<B, C>(
                strategy,
                rounds,
                exchanges,
                outcome,
                connection,
                connected,
            );
        if i < connection {
            assert(exchanges.take(connection)[i] == exchanges[i]);
        } else if i > connection {
            lemma_kinds_of_interleaving::<B, C>(
                strategy,
                (rounds - 1) as nat,
                exchanges.skip(connection + 1),
                outcome,
                i - connection - 1,
            );
        }
    }
}

/// Interleaving ends: drivers are dispatched no more often than there are rounds. Each dispatch but
/// the last found drivers to dispatch. Where interleaving succeeds, either the last found none, or
/// every round was used up; where it fails in a dispatch, that is the last.
pub proof fn interleaving_converges<B: BootServices, C: ConnectController<B>>(
    strategy: C,
    rounds: nat,
    exchanges: Seq<Exchange>,
    outcome: Result<(), EfiError>,
)
    requires
        interleaves::<B, C>(strategy, rounds, exchanges, outcome),
    ensures
        firmware::dispatches(exchanges).len() <= rounds,
        forall|i: int|
            0 <= i < firmware::dispatches(exchanges).len() - 1 ==> (
            #[trigger] firmware::dispatches(exchanges)[i])->Dispatch_reply == Ok::<bool, EfiError>(
                true,
            ),
        outcome is Ok ==> firmware::dispatches(exchanges).len() == rounds || (exchanges.len() > 0
            && (exchanges.last() matches Exchange::Dispatch { reply } && reply == Ok::<
            bool,
            EfiError,
        >(false))),
    decreases rounds,
{
    if rounds == 0 {
        firmware::lemma_only_boot_services(exchanges);
    } else {
        let (connection, connected) = choose|connection: int, connected: Result<(), EfiError>|
            #[trigger] starts_round::<B, C>(strategy, exchanges, connection, connected)
                && continues_round::<B, C>(
                strategy,
                rounds,
                exchanges,
                outcome,
                connection,
                connected,
            );
        let connecting = exchanges.take(connection);
        let rest = exchanges.skip(connection);
        assert(exchanges =~= connecting + rest);
        lemma_dispatches_of_round(connecting, rest);
        if connected is Err {
            assert(exchanges =~= connecting);
        } else {
            assert(rest.skip(1) =~= exchanges.skip(connection + 1));
            if exchanges[connection]->Dispatch_reply == Ok::<bool, EfiError>(true) {
                interleaving_converges::<B, C>(
                    strategy,
                    (rounds - 1) as nat,
                    rest.skip(1),
                    outcome,
                );
                let later = firmware::dispatches(rest.skip(1));
                assert(forall|i: int|
                    1 <= i < firmware::dispatches(exchanges).len()
                        ==> #[trigger] firmware::dispatches(exchanges)[i] == later[i - 1]);
            } else {
                firmware::lemma_only_boot_services(rest.skip(1));
            }
        }
    }
}

} // verus!
