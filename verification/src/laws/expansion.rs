//! Laws of the expansion of short-form device paths.
use vstd::prelude::*;

use crate::device_path::node::NodeView;
use crate::device_path::path;
use crate::device_path::DevicePathBuf;
use crate::error;
use crate::error::EfiError;
use crate::firmware::{Exchange, Search};
use crate::helpers::expand;

verus! {

/// A path is a short form unless it is empty or starts with a hardware node, an ACPI node or an end.
pub proof fn short_forms_are_told_by_first_node(path: Seq<NodeView>)
    ensures
        expand::is_partial(path) <==> path.len() > 0 && path[0].node_type != 1 && path[0].node_type
            != 2 && path[0].node_type != 0x7f,
{
}

/// The outcome of an expansion stands for all nodes of the path, or for the failure.
pub proof fn outcome_is_seen_whole(path: DevicePathBuf, failure: EfiError)
    ensures
        expand::outcome_view(Ok(path)) == Ok::<Seq<NodeView>, EfiError>(path@),
        expand::outcome_view(Err(failure)) == Err::<Seq<NodeView>, EfiError>(failure),
{
}

/// A full path stays as it is, whatever its nodes; nothing is called for it.
pub proof fn full_path_stays(
    path: Seq<NodeView>,
    exchanges: Seq<Exchange>,
    outcome: Result<Seq<NodeView>, EfiError>,
)
    requires
        expand::expands(path, exchanges, outcome),
        path.len() > 1,
        path[0].node_type == 1 || path[0].node_type == 2 || path[0].node_type == 0x7f,
    ensures
        exchanges == Seq::<Exchange>::empty(),
        outcome matches Ok(expanded) && expanded == path,
{
    assert(exchanges =~= Seq::<Exchange>::empty());
}

/// A path of one node is refused, and so is a short form without a hard drive node; nothing is
/// called for them.
pub proof fn path_without_partition_is_refused(
    path: Seq<NodeView>,
    exchanges: Seq<Exchange>,
    outcome: Result<Seq<NodeView>, EfiError>,
)
    requires
        expand::expands(path, exchanges, outcome),
        path.len() == 1 || {
            &&& path.len() > 0
            &&& path[0].node_type != 1 && path[0].node_type != 2 && path[0].node_type != 0x7f
            &&& forall|i: int|
                0 <= i < path.len() ==> !((#[trigger] path[i]).node_type == 4 && path[i].sub_type
                    == 1 && path[i].data.len() >= 38)
        },
    ensures
        exchanges == Seq::<Exchange>::empty(),
        outcome matches Err(failure) && failure == EfiError::InvalidParameter,
{
    assert(exchanges =~= Seq::<Exchange>::empty());
    if path.len() != 1 && expand::has_hard_drive(path) {
        let index = choose|index: int| expand::first_hard_drive(path, index);
        assert(path[index].is_hard_drive());
    }
}

/// The first hard drive node is where it is.
proof fn lemma_drive(partial: Seq<NodeView>, drive: int)
    requires
        0 <= drive < partial.len(),
        partial[drive].node_type == 4 && partial[drive].sub_type == 1 && partial[drive].data.len()
            >= 38,
        forall|i: int|
            0 <= i < drive ==> !((#[trigger] partial[i]).node_type == 4 && partial[i].sub_type == 1
                && partial[i].data.len() >= 38),
    ensures
        expand::first_hard_drive(partial, drive),
        expand::has_hard_drive(partial),
        forall|other: int| #[trigger]
            expand::first_hard_drive(partial, other) ==> other == drive,
{
    assert(expand::first_hard_drive(partial, drive));
    assert forall|other: int| #[trigger]
        expand::first_hard_drive(partial, other) implies other == drive by {
        if other < drive {
            assert(partial[other].is_hard_drive());
        } else if drive < other {
            assert(partial[drive].is_hard_drive());
        }
    }
}

/// Where some node ahead of the first end is of the partition, there is a first such.
proof fn lemma_first_match(path: Seq<NodeView>, target: NodeView, index: int) -> (first: int)
    requires
        0 <= index < path.len(),
        path[index].same_partition(target),
        forall|i: int| 0 <= i < index ==> !(#[trigger] path[i]).is_end(),
    ensures
        0 <= first <= index,
        expand::partition_found_at(path, target, first),
    decreases index,
{
    if forall|i: int| 0 <= i < index ==> !(#[trigger] path[i]).same_partition(target) {
        assert(expand::partition_found_at(path, target, index));
        index
    } else {
        let earlier = choose|i: int|
            0 <= i < index && (#[trigger] path[i]).same_partition(target);
        lemma_first_match(path, target, earlier)
    }
}

/// A partition is found however deep it lies. Where the first hard drive node of the short form has
/// a signature and a kind of signature, and some handle's path has, anywhere ahead of its first end,
/// a hard drive node with the same, the expansion succeeds, and that handle is the last one asked.
pub proof fn partition_is_found_at_any_depth(
    partial: Seq<NodeView>,
    exchanges: Seq<Exchange>,
    outcome: Result<Seq<NodeView>, EfiError>,
    drive: int,
    asked: int,
    candidate: Seq<NodeView>,
    index: int,
)
    requires
        expand::expands(partial, exchanges, outcome),
        partial.len() > 1,
        partial[0].node_type != 1 && partial[0].node_type != 2 && partial[0].node_type != 0x7f,
        0 <= drive < partial.len(),
        partial[drive].node_type == 4 && partial[drive].sub_type == 1 && partial[drive].data.len()
            >= 38,
        forall|i: int|
            0 <= i < drive ==> !((#[trigger] partial[i]).node_type == 4 && partial[i].sub_type == 1
                && partial[i].data.len() >= 38),
        0 <= asked < exchanges.len(),
        exchanges[asked] matches Exchange::DevicePath { reply: Ok(bytes), .. } && path::decoded(
            bytes,
        ) == Some(candidate),
        0 <= index < candidate.len(),
        candidate[index].node_type == 4 && candidate[index].sub_type == 1
            && candidate[index].data.len() >= 38,
        candidate[index].data.subrange(20, 36) == partial[drive].data.subrange(20, 36),
        candidate[index].data[37] == partial[drive].data[37],
        forall|i: int| 0 <= i < index ==> (#[trigger] candidate[i]).node_type != 0x7f,
    ensures
        outcome is Ok,
        asked == exchanges.len() - 1,
{
    lemma_drive(partial, drive);
    let first = lemma_first_match(candidate, partial[drive], index);
    assert(expand::leads_to_partition(partial, candidate));
    assert(expand::reply_matches(partial, exchanges[asked]->DevicePath_reply));
}

/// The expansion leads to the first node of the partition as the handle's path does, and goes on
/// with all nodes of the short form behind its first hard drive node, in order, but for ends; then
/// comes one end.
pub proof fn expansion_goes_on_as_short_form(
    partial: Seq<NodeView>,
    exchanges: Seq<Exchange>,
    outcome: Result<Seq<NodeView>, EfiError>,
    drive: int,
    asked: int,
    candidate: Seq<NodeView>,
    index: int,
)
    requires
        expand::expands(partial, exchanges, outcome),
        partial.len() > 1,
        partial[0].node_type != 1 && partial[0].node_type != 2 && partial[0].node_type != 0x7f,
        0 <= drive < partial.len(),
        partial[drive].node_type == 4 && partial[drive].sub_type == 1 && partial[drive].data.len()
            >= 38,
        forall|i: int|
            0 <= i < drive ==> !((#[trigger] partial[i]).node_type == 4 && partial[i].sub_type == 1
                && partial[i].data.len() >= 38),
        0 <= asked < exchanges.len(),
        exchanges[asked] matches Exchange::DevicePath { reply: Ok(bytes), .. } && path::decoded(
            bytes,
        ) == Some(candidate),
        0 <= index < candidate.len(),
        candidate[index].node_type == 4 && candidate[index].sub_type == 1
            && candidate[index].data.len() >= 38,
        candidate[index].data.subrange(20, 36) == partial[drive].data.subrange(20, 36),
        candidate[index].data[37] == partial[drive].data[37],
        forall|i: int| 0 <= i < index ==> (#[trigger] candidate[i]).node_type != 0x7f,
        forall|i: int|
            0 <= i < index ==> !((#[trigger] candidate[i]).node_type == 4 && candidate[i].sub_type
                == 1 && candidate[i].data.len() >= 38 && candidate[i].data.subrange(20, 36)
                == partial[drive].data.subrange(20, 36) && candidate[i].data[37]
                == partial[drive].data[37]),
    ensures
        outcome matches Ok(expanded) && expanded == candidate.take(index + 1) + partial.skip(
            drive + 1,
        ).filter(|node: NodeView| node.node_type != 0x7f)
            + seq![NodeView { node_type: 0x7f, sub_type: 0xff, data: Seq::empty() }],
{
    partition_is_found_at_any_depth(partial, exchanges, outcome, drive, asked, candidate, index);
    lemma_drive(partial, drive);
    let expanded = outcome->Ok_0;
    let (other, found) = choose|other: int, found: int|
        #![trigger expand::first_hard_drive(partial, other), expand::partition_found_at(candidate, partial[other], found)]
        expand::first_hard_drive(partial, other) && expand::partition_found_at(
            candidate,
            partial[other],
            found,
        ) && expanded == candidate.take(found + 1) + expand::rest_behind(partial, other) + seq![
            crate::device_path::node::end_entire(),
        ];
    assert(other == drive);
    if found < index {
        assert(candidate[found].same_partition(partial[drive]));
    } else if index < found {
        assert(candidate[index].same_partition(partial[drive]));
    }
    let behind = partial.skip(drive + 1);
    let keep = |node: NodeView| node.node_type != 0x7f;
    let keep_too = |node: NodeView| !node.is_end();
    lemma_same_filter(behind, keep, keep_too);
}

/// Two tests that agree keep the same nodes.
proof fn lemma_same_filter(
    nodes: Seq<NodeView>,
    one: spec_fn(NodeView) -> bool,
    other: spec_fn(NodeView) -> bool,
)
    requires
        forall|node: NodeView| #[trigger] one(node) == other(node),
    ensures
        nodes.filter(one) == nodes.filter(other),
    decreases nodes.len(),
{
    reveal(Seq::filter);
    if nodes.len() > 0 {
        lemma_same_filter(nodes.drop_last(), one, other);
        assert(one(nodes.last()) == other(nodes.last()));
    }
}

/// For a short form with a hard drive node, the handles that have a device path are looked for, and
/// asked one after the other. That none was looked for is answered as firmware answered it. The
/// search gives up only when every handle was asked, and succeeds only on a path that has the
/// partition ahead of its first end.
pub proof fn search_asks_every_handle(
    partial: Seq<NodeView>,
    exchanges: Seq<Exchange>,
    outcome: Result<Seq<NodeView>, EfiError>,
    drive: int,
)
    requires
        expand::expands(partial, exchanges, outcome),
        partial.len() > 1,
        partial[0].node_type != 1 && partial[0].node_type != 2 && partial[0].node_type != 0x7f,
        0 <= drive < partial.len(),
        partial[drive].node_type == 4 && partial[drive].sub_type == 1 && partial[drive].data.len()
            >= 38,
        forall|i: int|
            0 <= i < drive ==> !((#[trigger] partial[i]).node_type == 4 && partial[i].sub_type == 1
                && partial[i].data.len() >= 38),
    ensures
        exchanges.len() > 0,
        exchanges[0] matches Exchange::LocateHandles { search, reply } && search
            == Search::ByProtocol(
            seq![
                0x91u8, 0x6e, 0x57, 0x09, 0x3f, 0x6d, 0xd2, 0x11, 0x8e, 0x39, 0x00, 0xa0, 0xc9,
                0x69, 0x72, 0x3b,
            ],
        ) && match reply {
            Err(status) => exchanges.len() == 1 && (outcome matches Err(failure) && failure
                == error::error_of(status)),
            Ok(handles) => {
                &&& exchanges.len() <= 1 + handles.len()
                &&& forall|i: int|
                    1 <= i < exchanges.len() ==> (#[trigger] exchanges[i] matches
                        Exchange::DevicePath { handle, .. } && handle == handles[i - 1])
                &&& outcome is Err ==> exchanges.len() == 1 + handles.len() && outcome->Err_0
                    == EfiError::NotFound
                &&& outcome is Ok ==> {
                    &&& exchanges.len() > 1
                    &&& exchanges.last()->DevicePath_reply matches Ok(bytes)
                    &&& path::decoded(bytes) matches Some(candidate)
                    &&& exists|index: int|
                        {
                            &&& 0 <= index < candidate.len()
                            &&& (#[trigger] candidate[index]).node_type == 4
                            &&& candidate[index].sub_type == 1
                            &&& candidate[index].data.len() >= 38
                            &&& candidate[index].data.subrange(20, 36)
                                == partial[drive].data.subrange(20, 36)
                            &&& candidate[index].data[37] == partial[drive].data[37]
                            &&& forall|i: int|
                                0 <= i < index ==> (#[trigger] candidate[i]).node_type != 0x7f
                        }
                }
            },
        },
{
    super::identifiers::guids_have_their_bytes();
    lemma_drive(partial, drive);
    if outcome is Ok {
        let candidate = path::decoded(exchanges.last()->DevicePath_reply->Ok_0)->Some_0;
        let (other, index) = choose|other: int, index: int|
            #![trigger expand::first_hard_drive(partial, other), expand::partition_found_at(candidate, partial[other], index)]
            expand::first_hard_drive(partial, other) && expand::partition_found_at(
                candidate,
                partial[other],
                index,
            );
        assert(other == drive);
        assert(candidate[index].same_partition(partial[drive]));
        assert forall|i: int| 0 <= i < index implies (#[trigger] candidate[i]).node_type != 0x7f by {
            assert(!candidate[i].is_end());
        }
    }
}

} // verus!
