//! Laws of console discovery.
use vstd::prelude::*;

use crate::device_path::node::NodeView;
use crate::device_path::path;
use crate::firmware::{Exchange, Handle, Search};
use crate::guid::Guid;
use crate::helpers::console;

verus! {

/// Every console's whole device path is an instance of what is gathered. `paths` are the device
/// paths that were found, by the exchanges at `found` and no others, and `offsets` the sums of the
/// lengths of the paths ahead. Then what is gathered is as long as all of them together, has at
/// each offset the nodes of the path that belongs there, but for its end, and has the end of an
/// instance behind each path but the last, whose end is its own.
pub proof fn every_console_is_an_instance(
    exchanges: Seq<Exchange>,
    found: Seq<int>,
    paths: Seq<Seq<NodeView>>,
    offsets: Seq<int>,
)
    requires
        found.len() == paths.len(),
        offsets.len() == paths.len() + 1,
        offsets[0] == 0,
        forall|k: int|
            0 <= k < paths.len() ==> offsets[k + 1] == offsets[k] + (#[trigger] paths[k]).len(),
        forall|j: int, k: int| 0 <= j < k < found.len() ==> #[trigger] found[j] < #[trigger] found[k],
        forall|k: int|
            #![trigger found[k]]
            0 <= k < found.len() ==> 0 <= found[k] < exchanges.len() && (exchanges[found[k]] matches
                Exchange::DevicePath { reply: Ok(bytes), .. } && path::decoded(bytes) == Some(
                paths[k],
            )),
        forall|i: int|
            0 <= i < exchanges.len() ==> (#[trigger] exchanges[i] matches Exchange::DevicePath {
                reply: Ok(bytes),
                ..
            } ==> (path::decoded(bytes) is Some ==> found.contains(i))),
    ensures
        paths.len() == 0 ==> console::gathered(None, exchanges) is None,
        paths.len() > 0 ==> {
            &&& console::gathered(None, exchanges) matches Some(all)
            &&& all.len() == offsets[paths.len() as int]
            &&& forall|k: int, i: int|
                #![trigger paths[k][i]]
                0 <= k < paths.len() && 0 <= i < paths[k].len() - 1 ==> all[offsets[k] + i]
                    == paths[k][i]
            &&& forall|k: int|
                0 <= k < paths.len() - 1 ==> all[offsets[k] + (#[trigger] paths[k]).len() - 1] == (
                NodeView { node_type: 0x7f, sub_type: 0x01, data: Seq::empty() })
            &&& all.last() == paths.last().last()
        },
    decreases exchanges.len(),
{
    let count = paths.len() as int;
    if exchanges.len() == 0 {
        if count > 0 {
            assert(0 <= found[0] < exchanges.len());
        }
    } else {
        let last = exchanges.len() - 1;
        let before = exchanges.drop_last();
        assert(forall|i: int| 0 <= i < last ==> #[trigger] before[i] == exchanges[i]);
        if count > 0 && found[count - 1] == last {
            let earlier = found.drop_last();
            let others = paths.drop_last();
            let starts = offsets.drop_last();
            let added = paths[count - 1];
            assert(forall|k: int| 0 <= k < count - 1 ==> #[trigger] others[k] == paths[k]);
            assert(forall|k: int| 0 <= k < count ==> #[trigger] starts[k] == offsets[k]);
            assert forall|k: int|
                #![trigger earlier[k]]
                0 <= k < earlier.len() implies 0 <= earlier[k] < before.len() && (
            before[earlier[k]] matches Exchange::DevicePath { reply: Ok(bytes), .. }
                && path::decoded(bytes) == Some(others[k])) by {
                assert(earlier[k] == found[k]);
                assert(found[k] < found[count - 1]);
            }
            assert forall|i: int|
                0 <= i < before.len() implies (#[trigger] before[i] matches Exchange::DevicePath {
                reply: Ok(bytes),
                ..
            } ==> (path::decoded(bytes) is Some ==> earlier.contains(i))) by {
                if let Exchange::DevicePath { reply: Ok(bytes), .. } = exchanges[i] {
                    if path::decoded(bytes) is Some {
                        let k = choose|k: int| 0 <= k < found.len() && found[k] == i;
                        assert(earlier[k] == i);
                    }
                }
            }
            every_console_is_an_instance(before, earlier, others, starts);
            lemma_decoded_path_has_nodes(exchanges[last]->DevicePath_reply->Ok_0);
            if count > 1 {
                let all = console::gathered(None, before)->Some_0;
                let whole = console::gathered(None, exchanges)->Some_0;
                lemma_offsets_grow(paths, offsets, count - 1);
                assert(all.len() == offsets[count - 1]);
                assert(whole == path::with_instances(all, added));
                assert(whole.len() == all.len() + added.len());
                assert(offsets[count] == offsets[count - 1] + paths[count - 1].len());
                assert forall|k: int, i: int|
                    #![trigger paths[k][i]]
                    0 <= k < count && 0 <= i < paths[k].len() - 1 implies whole[offsets[k] + i]
                    == paths[k][i] by {
                    if k < count - 1 {
                        assert(others[k][i] == paths[k][i]);
                        lemma_offsets_within(paths, offsets, k, count - 1);
                    }
                }
                assert forall|k: int| 0 <= k < count - 1 implies whole[offsets[k] + (
                #[trigger] paths[k]).len() - 1] == (NodeView {
                    node_type: 0x7f,
                    sub_type: 0x01,
                    data: Seq::empty(),
                }) by {
                    lemma_decoded_path_has_nodes(exchanges[found[k]]->DevicePath_reply->Ok_0);
                    assert(paths[k].len() > 0);
                    assert(offsets[k + 1] == offsets[k] + paths[k].len());
                    if k < count - 2 {
                        lemma_offsets_within(paths, offsets, k, count - 2);
                        lemma_decoded_path_has_nodes(
                            exchanges[found[count - 2]]->DevicePath_reply->Ok_0,
                        );
                        assert(offsets[k + 1] <= offsets[count - 2]);
                        assert(offsets[count - 1] == offsets[count - 2] + paths[count - 2].len());
                        assert(all[offsets[k] + others[k].len() - 1] == (NodeView {
                            node_type: 0x7f,
                            sub_type: 0x01,
                            data: Seq::empty(),
                        }));
                    }
                }
            } else {
                assert(offsets[1] == offsets[0] + paths[0].len());
            }
        } else {
            assert forall|k: int|
                #![trigger found[k]]
                0 <= k < found.len() implies 0 <= found[k] < before.len() && (before[found[k]]
                matches Exchange::DevicePath { reply: Ok(bytes), .. } && path::decoded(bytes)
                == Some(paths[k])) by {
                if k < count - 1 {
                    assert(found[k] < found[count - 1]);
                }
            }
            assert(!found.contains(last)) by {
                if found.contains(last) {
                    let k = choose|k: int| 0 <= k < found.len() && found[k] == last;
                    if k < count - 1 {
                        assert(found[k] < found[count - 1]);
                        assert(found[count - 1] < exchanges.len());
                    }
                }
            }
            every_console_is_an_instance(before, found, paths, offsets);
            assert(console::gathered(None, exchanges) == console::gathered(None, before)) by {
                if let Exchange::DevicePath { reply: Ok(bytes), .. } = exchanges[last] {
                    assert(path::decoded(bytes) is None);
                }
            }
        }
    }
}

/// What is read as a path has at least an end.
proof fn lemma_decoded_path_has_nodes(bytes: Seq<u8>)
    ensures
        path::decoded(bytes) matches Some(nodes) ==> nodes.len() > 0,
{
    if path::decoded(bytes) is Some {
        path::encode_inverts_decode(bytes);
    }
}

/// Offsets never fall.
proof fn lemma_offsets_within(
    paths: Seq<Seq<NodeView>>,
    offsets: Seq<int>,
    k: int,
    end: int,
)
    requires
        offsets.len() == paths.len() + 1,
        forall|k: int|
            0 <= k < paths.len() ==> offsets[k + 1] == offsets[k] + (#[trigger] paths[k]).len(),
        0 <= k < end <= paths.len(),
    ensures
        offsets[k] + paths[k].len() <= offsets[end],
    decreases end - k,
{
    assert(offsets[k + 1] == offsets[k] + paths[k].len());
    if k + 1 < end {
        lemma_offsets_within(paths, offsets, k + 1, end);
    }
}

/// Offsets are not negative.
proof fn lemma_offsets_grow(
    paths: Seq<Seq<NodeView>>,
    offsets: Seq<int>,
    end: int,
)
    requires
        offsets.len() == paths.len() + 1,
        offsets[0] == 0,
        forall|k: int|
            0 <= k < paths.len() ==> offsets[k + 1] == offsets[k] + (#[trigger] paths[k]).len(),
        0 <= end <= paths.len(),
    ensures
        forall|k: int| 0 <= k <= end ==> 0 <= #[trigger] offsets[k],
    decreases end,
{
    if end > 0 {
        lemma_offsets_grow(paths, offsets, end - 1);
        assert(offsets[end] == offsets[end - 1] + paths[end - 1].len());
    }
}

/// Every handle is taken, unless it was seen before.
proof fn lemma_fresh_takes_all(handles: Seq<Handle>, seen: Seq<Handle>, position: int)
    requires
        0 <= position < handles.len(),
    ensures
        (seen + console::fresh(handles, seen)).contains(handles[position]),
    decreases handles.len(),
{
    let before = console::fresh(handles.drop_last(), seen);
    let all = seen + console::fresh(handles, seen);
    if position == handles.len() - 1 {
        if (seen + before).contains(handles.last()) {
            assert(all =~= seen + before);
        } else {
            assert(all.last() == handles.last());
        }
    } else {
        lemma_fresh_takes_all(handles.drop_last(), seen, position);
        let i = choose|i: int|
            0 <= i < (seen + before).len() && (seen + before)[i] == handles[position];
        assert(all[i] == handles[position]);
    }
}

/// A handle that is taken is among the handles, and those ahead of it were taken before it, or seen.
proof fn lemma_fresh_in_order(handles: Seq<Handle>, seen: Seq<Handle>, k: int) -> (position: int)
    requires
        0 <= k < console::fresh(handles, seen).len(),
    ensures
        0 <= position < handles.len(),
        handles[position] == console::fresh(handles, seen)[k],
        forall|c: int|
            0 <= c < position ==> (seen + console::fresh(handles, seen).take(k)).contains(
                #[trigger] handles[c],
            ),
    decreases handles.len(),
{
    let before = console::fresh(handles.drop_last(), seen);
    let taken = console::fresh(handles, seen);
    if k < before.len() {
        assert(taken.take(k) =~= before.take(k));
        let position = lemma_fresh_in_order(handles.drop_last(), seen, k);
        assert(forall|c: int|
            0 <= c < position ==> #[trigger] handles[c] == handles.drop_last()[c]);
        position
    } else {
        assert(taken.take(k) =~= before);
        assert forall|c: int| 0 <= c < handles.len() - 1 implies (seen + before).contains(
            #[trigger] handles[c],
        ) by {
            lemma_fresh_takes_all(handles.drop_last(), seen, c);
            assert(handles.drop_last()[c] == handles[c]);
        }
        handles.len() - 1
    }
}

/// One protocol after the other is looked for, each once, in the order in which they are given.
pub proof fn every_protocol_is_looked_for(
    protocols: Seq<Seq<u8>>,
    seen: Seq<Handle>,
    exchanges: Seq<Exchange>,
)
    requires
        console::asks_supporters(protocols, seen, exchanges),
    ensures
        ({
            let listings = exchanges.filter(|exchange: Exchange| exchange is LocateHandles);
            &&& listings.len() == protocols.len()
            &&& forall|k: int|
                0 <= k < protocols.len() ==> (#[trigger] listings[k])->LocateHandles_search
                    == Search::ByProtocol(protocols[k])
        }),
    decreases protocols.len(),
{
    let select = |exchange: Exchange| exchange is LocateHandles;
    if protocols.len() == 0 {
        reveal(Seq::filter);
    } else {
        let (asked, rest) = match exchanges[0]->LocateHandles_reply {
            Err(_) => (Seq::<Handle>::empty(), exchanges.skip(1)),
            Ok(handles) => {
                let asked = console::fresh(handles, seen);
                (asked, exchanges.skip(1 + asked.len() as int))
            },
        };
        let first = seq![exchanges[0]];
        let asking = exchanges.subrange(1, 1 + asked.len() as int);
        assert(exchanges =~= first + asking + rest);
        Seq::filter_distributes_over_add(first + asking, rest, select);
        Seq::filter_distributes_over_add(first, asking, select);
        assert(first.filter(select) =~= first) by {
            reveal(Seq::filter);
            assert(first.drop_last().filter(select) =~= Seq::<Exchange>::empty());
        }
        assert(asking.filter(select) =~= Seq::<Exchange>::empty()) by {
            broadcast use {Seq::lemma_filter_pred, Seq::lemma_filter_contains_rev};

            if asking.filter(select).len() > 0 {
                let exchange = asking.filter(select)[0];
                assert(asking.filter(select).contains(exchange));
                assert(asking.contains(exchange));
            }
        }
        let seen_then = match exchanges[0]->LocateHandles_reply {
            Err(_) => seen,
            Ok(_) => seen + asked,
        };
        every_protocol_is_looked_for(protocols.skip(1), seen_then, rest);
        let listings = exchanges.filter(select);
        let later = rest.filter(select);
        assert(listings =~= first + later);
        assert forall|k: int| 0 <= k < protocols.len() implies (
        #[trigger] listings[k])->LocateHandles_search == Search::ByProtocol(protocols[k]) by {
            if k > 0 {
                assert(listings[k] == later[k - 1]);
                assert(protocols.skip(1)[k - 1] == protocols[k]);
            }
        }
    }
}

/// Every handle that is found to support one of the protocols is asked for its device path, unless
/// it was seen before; however many there are, and whatever came of the others.
pub proof fn every_supporter_is_asked(
    protocols: Seq<Seq<u8>>,
    seen: Seq<Handle>,
    exchanges: Seq<Exchange>,
    listing: int,
    position: int,
)
    requires
        console::asks_supporters(protocols, seen, exchanges),
        0 <= listing < exchanges.len(),
        exchanges[listing] matches Exchange::LocateHandles { reply: Ok(handles), .. } && 0
            <= position < handles.len(),
    ensures
        ({
            let supporter = exchanges[listing]->LocateHandles_reply->Ok_0[position];
            seen.contains(supporter) || exists|j: int|
                0 <= j < exchanges.len() && (#[trigger] exchanges[j] matches
                    Exchange::DevicePath { handle, .. } && handle == supporter)
        }),
    decreases protocols.len(),
{
    let supporter = exchanges[listing]->LocateHandles_reply->Ok_0[position];
    match exchanges[0]->LocateHandles_reply {
        Err(_) => {
            let rest = exchanges.skip(1);
            every_supporter_is_asked(protocols.skip(1), seen, rest, listing - 1, position);
            if !seen.contains(supporter) {
                let j = choose|j: int|
                    0 <= j < rest.len() && (#[trigger] rest[j] matches Exchange::DevicePath {
                        handle,
                        ..
                    } && handle == supporter);
                assert(exchanges[j + 1] == rest[j]);
            }
        },
        Ok(handles) => {
            let asked = console::fresh(handles, seen);
            let step = 1 + asked.len() as int;
            let asking = exchanges.subrange(1, step);
            let rest = exchanges.skip(step);
            if listing == 0 {
                lemma_fresh_takes_all(handles, seen, position);
            } else if listing < step {
                assert(asking[listing - 1] is DevicePath);
            } else {
                every_supporter_is_asked(
                    protocols.skip(1),
                    seen + asked,
                    rest,
                    listing - step,
                    position,
                );
            }
            if (seen + asked).contains(supporter) {
                let i = choose|i: int|
                    0 <= i < (seen + asked).len() && (seen + asked)[i] == supporter;
                if i < seen.len() {
                    assert(seen[i] == supporter);
                } else {
                    assert(asking[i - seen.len()] == exchanges[1 + i - seen.len()]);
                    assert(asked[i - seen.len()] == supporter);
                }
            } else {
                let j = choose|j: int|
                    0 <= j < rest.len() && (#[trigger] rest[j] matches Exchange::DevicePath {
                        handle,
                        ..
                    } && handle == supporter);
                assert(exchanges[j + step] == rest[j]);
            }
        },
    }
}

/// Handles are asked in the order in which they are found: one that is asked comes from the listing
/// before, and those ahead of it in that listing were asked before it, or seen.
pub proof fn supporters_are_asked_in_order(
    protocols: Seq<Seq<u8>>,
    seen: Seq<Handle>,
    exchanges: Seq<Exchange>,
    listing: int,
    asked_at: int,
)
    requires
        console::asks_supporters(protocols, seen, exchanges),
        0 <= listing < asked_at < exchanges.len(),
        exchanges[listing] is LocateHandles,
        forall|k: int| listing < k <= asked_at ==> #[trigger] exchanges[k] is DevicePath,
    ensures
        exchanges[listing]->LocateHandles_reply matches Ok(handles) && exists|position: int|
            #![trigger handles[position]]
            {
                &&& 0 <= position < handles.len()
                &&& handles[position] == exchanges[asked_at]->DevicePath_handle
                &&& forall|c: int|
                    0 <= c < position ==> seen.contains(#[trigger] handles[c]) || exists|j: int|
                        0 <= j < asked_at && (#[trigger] exchanges[j] matches
                            Exchange::DevicePath { handle, .. } && handle == handles[c])
            },
    decreases protocols.len(),
{
    match exchanges[0]->LocateHandles_reply {
        Err(_) => {
            let rest = exchanges.skip(1);
            if listing == 0 {
                asking_begins_with_a_listing(protocols.skip(1), seen, rest);
                assert(rest[0] == exchanges[1]);
            } else {
                assert(forall|k: int|
                    1 <= k < exchanges.len() ==> #[trigger] exchanges[k] == rest[k - 1]);
                assert forall|k: int| listing - 1 < k <= asked_at - 1 implies #[trigger] rest[k] is
                    DevicePath by {
                    assert(exchanges[k + 1] is DevicePath);
                }
                supporters_are_asked_in_order(
                    protocols.skip(1),
                    seen,
                    rest,
                    listing - 1,
                    asked_at - 1,
                );
                let handles = exchanges[listing]->LocateHandles_reply->Ok_0;
                let position = choose|position: int|
                    #![trigger handles[position]]
                    {
                        &&& 0 <= position < handles.len()
                        &&& handles[position] == rest[asked_at - 1]->DevicePath_handle
                        &&& forall|c: int|
                            0 <= c < position ==> seen.contains(#[trigger] handles[c]) || exists|
                                j: int,
                            |
                                0 <= j < asked_at - 1 && (#[trigger] rest[j] matches
                                    Exchange::DevicePath { handle, .. } && handle == handles[c])
                    };
                assert forall|c: int| 0 <= c < position implies seen.contains(
                    #[trigger] handles[c],
                ) || exists|j: int|
                    0 <= j < asked_at && (#[trigger] exchanges[j] matches
                        Exchange::DevicePath { handle, .. } && handle == handles[c]) by {
                    if !seen.contains(handles[c]) {
                        let j = choose|j: int|
                            0 <= j < asked_at - 1 && (#[trigger] rest[j] matches
                                Exchange::DevicePath { handle, .. } && handle == handles[c]);
                        assert(exchanges[j + 1] == rest[j]);
                    }
                }
            }
        },
        Ok(handles) => {
            let asked = console::fresh(handles, seen);
            let step = 1 + asked.len() as int;
            let asking = exchanges.subrange(1, step);
            let rest = exchanges.skip(step);
            if listing == 0 {
                if asked_at >= step {
                    asking_begins_with_a_listing(protocols.skip(1), seen + asked, rest);
                    assert(rest[0] == exchanges[step]);
                }
                assert(asking[asked_at - 1] == exchanges[asked_at]);
                let position = lemma_fresh_in_order(handles, seen, asked_at - 1);
                assert forall|c: int| 0 <= c < position implies seen.contains(
                    #[trigger] handles[c],
                ) || exists|j: int|
                    0 <= j < asked_at && (#[trigger] exchanges[j] matches
                        Exchange::DevicePath { handle, .. } && handle == handles[c]) by {
                    let taken = seen + asked.take(asked_at - 1);
                    let i = choose|i: int| 0 <= i < taken.len() && taken[i] == handles[c];
                    if i < seen.len() {
                        assert(seen[i] == handles[c]);
                    } else {
                        assert(asking[i - seen.len()] == exchanges[1 + i - seen.len()]);
                        assert(asked[i - seen.len()] == handles[c]);
                    }
                }
                assert(handles[position] == exchanges[asked_at]->DevicePath_handle);
            } else if listing < step {
                assert(asking[listing - 1] is DevicePath);
            } else {
                assert forall|k: int| listing - step < k <= asked_at - step implies
                    #[trigger] rest[k] is DevicePath by {
                    assert(exchanges[k + step] is DevicePath);
                }
                assert(rest[listing - step] == exchanges[listing]);
                assert(rest[asked_at - step] == exchanges[asked_at]);
                supporters_are_asked_in_order(
                    protocols.skip(1),
                    seen + asked,
                    rest,
                    listing - step,
                    asked_at - step,
                );
                let handles = exchanges[listing]->LocateHandles_reply->Ok_0;
                let position = choose|position: int|
                    #![trigger handles[position]]
                    {
                        &&& 0 <= position < handles.len()
                        &&& handles[position] == rest[asked_at - step]->DevicePath_handle
                        &&& forall|c: int|
                            0 <= c < position ==> (seen + asked).contains(#[trigger] handles[c])
                                || exists|j: int|
                                0 <= j < asked_at - step && (#[trigger] rest[j] matches
                                    Exchange::DevicePath { handle, .. } && handle == handles[c])
                    };
                assert forall|c: int| 0 <= c < position implies seen.contains(
                    #[trigger] handles[c],
                ) || exists|j: int|
                    0 <= j < asked_at && (#[trigger] exchanges[j] matches
                        Exchange::DevicePath { handle, .. } && handle == handles[c]) by {
                    if (seen + asked).contains(handles[c]) {
                        let all = seen + asked;
                        let i = choose|i: int| 0 <= i < all.len() && all[i] == handles[c];
                        if i < seen.len() {
                            assert(seen[i] == handles[c]);
                        } else {
                            assert(asking[i - seen.len()] == exchanges[1 + i - seen.len()]);
                            assert(asked[i - seen.len()] == handles[c]);
                        }
                    } else {
                        let j = choose|j: int|
                            0 <= j < asked_at - step && (#[trigger] rest[j] matches
                                Exchange::DevicePath { handle, .. } && handle == handles[c]);
                        assert(exchanges[j + step] == rest[j]);
                    }
                }
            }
        },
    }
}

/// Looking for consoles begins with a listing, and only lists handles and asks for device paths.
pub proof fn asking_begins_with_a_listing(
    protocols: Seq<Seq<u8>>,
    seen: Seq<Handle>,
    exchanges: Seq<Exchange>,
)
    requires
        console::asks_supporters(protocols, seen, exchanges),
    ensures
        exchanges.len() > 0 ==> exchanges[0] is LocateHandles,
        forall|i: int|
            0 <= i < exchanges.len() ==> #[trigger] exchanges[i] is LocateHandles
                || exchanges[i] is DevicePath,
    decreases protocols.len(),
{
    if protocols.len() > 0 {
        match exchanges[0]->LocateHandles_reply {
            Err(_) => {
                let rest = exchanges.skip(1);
                asking_begins_with_a_listing(protocols.skip(1), seen, rest);
                assert(forall|i: int|
                    1 <= i < exchanges.len() ==> #[trigger] exchanges[i] == rest[i - 1]);
            },
            Ok(handles) => {
                let asked = console::fresh(handles, seen);
                let step = 1 + asked.len() as int;
                let asking = exchanges.subrange(1, step);
                let rest = exchanges.skip(step);
                asking_begins_with_a_listing(protocols.skip(1), seen + asked, rest);
                assert(forall|i: int|
                    step <= i < exchanges.len() ==> #[trigger] exchanges[i] == rest[i - step]);
                assert(forall|i: int|
                    1 <= i < step ==> #[trigger] exchanges[i] == asking[i - 1]);
            },
        }
    }
}

/// A console variable gets, where there is a console for it, one write of all that was gathered: as
/// the bytes of the path, under its name and the namespace of global variables, to outlast a reset
/// and to be accessed by boot services and at run time. Where there is none, it gets no write.
pub proof fn variable_gets_what_was_gathered(
    variable: Seq<u16>,
    protocols: Seq<Seq<u8>>,
    exchanges: Seq<Exchange>,
    asked: int,
)
    requires
        console::gathers_then_writes(variable, protocols, exchanges, asked),
    ensures
        0 <= asked <= exchanges.len(),
        console::asks_supporters(protocols, Seq::empty(), exchanges.take(asked)),
        match console::gathered(None, exchanges.take(asked)) {
            None => exchanges.len() == asked,
            Some(all) => {
                &&& exchanges.len() == asked + 1
                &&& exchanges[asked] matches Exchange::SetVariable {
                    name,
                    namespace,
                    attributes,
                    data,
                    ..
                }
                &&& name == variable
                &&& namespace == seq![
                    0x61u8, 0xdf, 0xe4, 0x8b, 0xca, 0x93, 0xd2, 0x11, 0xaa, 0x0d, 0x00, 0xe0, 0x98,
                    0x03, 0x2b, 0x8c,
                ]
                &&& attributes == 0x1 + 0x2 + 0x4
                &&& data == path::encoded(all)
            },
        },
{
    super::identifiers::guids_have_their_bytes();
}

/// What a console variable gets reads back as the device paths that were found, all of them, in
/// order and node for node, with the end of an instance between two of them. It gets a write exactly
/// where a device path was found.
pub proof fn variable_holds_every_console(
    variable: Seq<u16>,
    protocols: Seq<Seq<u8>>,
    exchanges: Seq<Exchange>,
    asked: int,
    found: Seq<int>,
    paths: Seq<Seq<NodeView>>,
    offsets: Seq<int>,
)
    requires
        console::gathers_then_writes(variable, protocols, exchanges, asked),
        found.len() == paths.len(),
        offsets.len() == paths.len() + 1,
        offsets[0] == 0,
        forall|k: int|
            0 <= k < paths.len() ==> offsets[k + 1] == offsets[k] + (#[trigger] paths[k]).len(),
        forall|j: int, k: int| 0 <= j < k < found.len() ==> #[trigger] found[j] < #[trigger] found[k],
        forall|k: int|
            #![trigger found[k]]
            0 <= k < found.len() ==> 0 <= found[k] < exchanges.len() && (exchanges[found[k]] matches
                Exchange::DevicePath { reply: Ok(bytes), .. } && path::decoded(bytes) == Some(
                paths[k],
            )),
        forall|i: int|
            0 <= i < exchanges.len() ==> (#[trigger] exchanges[i] matches Exchange::DevicePath {
                reply: Ok(bytes),
                ..
            } ==> (path::decoded(bytes) is Some ==> found.contains(i))),
    ensures
        forall|i: int|
            0 <= i < exchanges.len() ==> (#[trigger] exchanges[i] is SetVariable <==> paths.len()
                > 0 && i == exchanges.len() - 1),
        paths.len() > 0 ==> {
            &&& exchanges.last() matches Exchange::SetVariable { name, data, .. }
            &&& name == variable
            &&& path::decoded(data) matches Some(all)
            &&& all.len() == offsets[paths.len() as int]
            &&& forall|k: int, i: int|
                #![trigger paths[k][i]]
                0 <= k < paths.len() && 0 <= i < paths[k].len() - 1 ==> all[offsets[k] + i]
                    == paths[k][i]
            &&& forall|k: int|
                0 <= k < paths.len() - 1 ==> all[offsets[k] + (#[trigger] paths[k]).len() - 1] == (
                NodeView { node_type: 0x7f, sub_type: 0x01, data: Seq::empty() })
            &&& all.last() == paths.last().last()
        },
{
    let asking = exchanges.take(asked);
    asking_begins_with_a_listing(protocols, Seq::empty(), asking);
    assert forall|k: int|
        #![trigger found[k]]
        0 <= k < found.len() implies 0 <= found[k] < asking.len() && (asking[found[k]] matches
        Exchange::DevicePath { reply: Ok(bytes), .. } && path::decoded(bytes) == Some(paths[k])) by {
        assert(exchanges[found[k]] is DevicePath);
    }
    assert forall|i: int|
        0 <= i < asking.len() implies (#[trigger] asking[i] matches Exchange::DevicePath {
        reply: Ok(bytes),
        ..
    } ==> (path::decoded(bytes) is Some ==> found.contains(i))) by {
        assert(asking[i] == exchanges[i]);
    }
    assert forall|i: int| 0 <= i < asked implies !(#[trigger] exchanges[i] is SetVariable) by {
        assert(exchanges[i] == asking[i]);
    }
    every_console_is_an_instance(asking, found, paths, offsets);
    variable_gets_what_was_gathered(variable, protocols, exchanges, asked);
    if paths.len() > 0 {
        let data = exchanges[asked]->SetVariable_data;
        console::console_variable_reads_back(
            variable,
            protocols,
            exchanges,
            asked,
            Seq::empty(),
        );
        assert(data + Seq::<u8>::empty() =~= data);
    }
}

/// `ConIn` is for what supports text input, `ConOut` for what supports text output and then
/// graphics output, `ErrOut` for what supports text output; they are brought up to date in this
/// order, and nothing else happens.
pub proof fn variables_are_for_their_protocols(exchanges: Seq<Exchange>)
    requires
        console::discovers_consoles(exchanges),
    ensures
        ({
            let text_input = seq![
                0xc1u8, 0x77, 0x74, 0x38, 0xc7, 0x69, 0xd2, 0x11, 0x8e, 0x39, 0x00, 0xa0, 0xc9,
                0x69, 0x72, 0x3b,
            ];
            let text_output = seq![
                0xc2u8, 0x77, 0x74, 0x38, 0xc7, 0x69, 0xd2, 0x11, 0x8e, 0x39, 0x00, 0xa0, 0xc9,
                0x69, 0x72, 0x3b,
            ];
            let graphics_output = seq![
                0xdeu8, 0xa9, 0x42, 0x90, 0xdc, 0x23, 0x38, 0x4a, 0x96, 0xfb, 0x7a, 0xde, 0xd0,
                0x80, 0x51, 0x6a,
            ];
            let con_in = seq![0x43u16, 0x6f, 0x6e, 0x49, 0x6e, 0];
            let con_out = seq![0x43u16, 0x6f, 0x6e, 0x4f, 0x75, 0x74, 0];
            let err_out = seq![0x45u16, 0x72, 0x72, 0x4f, 0x75, 0x74, 0];
            let inputs = seq![text_input];
            let outputs = seq![text_output, graphics_output];
            let texts = seq![text_output];
            exists|first: int, second: int, a: int, b: int, c: int|
                #![trigger console::gathers_then_writes(con_in, inputs, exchanges.take(first), a), console::gathers_then_writes(con_out, outputs, exchanges.subrange(first, second), b), console::gathers_then_writes(err_out, texts, exchanges.skip(second), c)]
                {
                    &&& 0 <= first <= second <= exchanges.len()
                    &&& console::gathers_then_writes(
                        con_in,
                        inputs,
                        exchanges.take(first),
                        a,
                    )
                    &&& console::gathers_then_writes(
                        con_out,
                        outputs,
                        exchanges.subrange(first, second),
                        b,
                    )
                    &&& console::gathers_then_writes(
                        err_out,
                        texts,
                        exchanges.skip(second),
                        c,
                    )
                }
        }),
{
    super::identifiers::guids_have_their_bytes();
    let text_input = crate::guid::spec_simple_text_input_guid();
    let text_output = crate::guid::spec_simple_text_output_guid();
    let graphics_output = crate::guid::spec_graphics_output_guid();
    let (first, second) = choose|first: int, second: int|
        console::updates_in_turn(exchanges, first, second);
    let con_in = seq![0x43u16, 0x6f, 0x6e, 0x49, 0x6e, 0];
    let con_out = seq![0x43u16, 0x6f, 0x6e, 0x4f, 0x75, 0x74, 0];
    let err_out = seq![0x45u16, 0x72, 0x72, 0x4f, 0x75, 0x74, 0];
    assert(con_in =~= console::con_in_name());
    assert(con_out =~= console::con_out_name());
    assert(err_out =~= console::err_out_name());
    let inputs = seq![text_input];
    let outputs = seq![text_output, graphics_output];
    let texts = seq![text_output];
    let a = choose|a: int|
        console::gathers_then_writes(con_in, inputs, exchanges.take(first), a);
    let b = choose|b: int|
        console::gathers_then_writes(
            con_out,
            outputs,
            exchanges.subrange(first, second),
            b,
        );
    let c = choose|c: int|
        console::gathers_then_writes(err_out, texts, exchanges.skip(second), c);
    assert(console::gathers_then_writes(con_in, inputs, exchanges.take(first), a));
    assert(console::gathers_then_writes(
        con_out,
        outputs,
        exchanges.subrange(first, second),
        b,
    ));
    assert(console::gathers_then_writes(err_out, texts, exchanges.skip(second), c));
}

/// A list of GUIDs stands for just as many, each with its bytes.
pub proof fn every_guid_is_seen(guids: Seq<Guid>, i: int)
    requires
        0 <= i < guids.len(),
    ensures
        console::guids_view(guids).len() == guids.len(),
        console::guids_view(guids)[i] == guids[i]@,
{
}

} // verus!
