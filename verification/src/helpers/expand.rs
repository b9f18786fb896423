//! Expansion of short-form device paths.
use vstd::prelude::*;

use crate::device_path::node;
use crate::device_path::node::{
    DevicePathNode, HardDrive, NodeView, TYPE_ACPI, TYPE_END, TYPE_HARDWARE,
};
use crate::device_path::path;
use crate::device_path::path::DevicePathBuf;
use crate::error;
use crate::error::{EfiError, Status};
use crate::firmware::{BootServices, Exchange, Firmware, HandleSearch, Search};
use crate::guid;
use crate::guid::Guid;

verus! {

/// The path is a short form, which does not start at the system root. Full paths start with a
/// hardware node or an ACPI node. A path that starts with an end leads nowhere and is no short form
/// either.
pub open spec fn is_partial(path: Seq<NodeView>) -> bool {
    let first = path[0];
    &&& path.len() > 0
    &&& first.node_type != TYPE_HARDWARE
    &&& first.node_type != TYPE_ACPI
    &&& first.node_type != TYPE_END
}

/// Whether a device path is a short form, which has to be expanded before it can be booted from.
pub fn is_partial_device_path(device_path: &DevicePathBuf) -> (partial: bool)
    ensures
        partial == is_partial(device_path@),
{
    proof {
        use_type_invariant(device_path);
    }
    let node_type: u8 = device_path.node(0).node_type();
    node_type != TYPE_HARDWARE && node_type != TYPE_ACPI && node_type != TYPE_END
}

/// The first hard drive node of the path is at `index`.
pub open spec fn first_hard_drive(path: Seq<NodeView>, index: int) -> bool {
    &&& 0 <= index < path.len()
    &&& path[index].is_hard_drive()
    &&& forall|i: int| 0 <= i < index ==> !(#[trigger] path[i]).is_hard_drive()
}

/// Some node of the path is a hard drive node.
pub open spec fn has_hard_drive(path: Seq<NodeView>) -> bool {
    exists|index: int| first_hard_drive(path, index)
}

/// The nodes behind `index` but for those that end an instance or the path.
pub open spec fn rest_behind(path: Seq<NodeView>, index: int) -> Seq<NodeView> {
    path.skip(index + 1).filter(|node: NodeView| !node.is_end())
}

/// The first instance of the path names the partition of `target` first at `index`.
pub open spec fn partition_found_at(path: Seq<NodeView>, target: NodeView, index: int) -> bool {
    &&& 0 <= index < path.len()
    &&& path[index].same_partition(target)
    &&& forall|i: int|
        0 <= i < index ==> !(#[trigger] path[i]).is_end() && !path[i].same_partition(target)
}

/// The device path `candidate` leads to the partition that the short form names.
pub open spec fn leads_to_partition(partial: Seq<NodeView>, candidate: Seq<NodeView>) -> bool {
    exists|drive: int, index: int|
        #![trigger first_hard_drive(partial, drive), partition_found_at(candidate, partial[drive], index)]
        first_hard_drive(partial, drive) && partition_found_at(candidate, partial[drive], index)
}

/// `expanded` leads to the partition as `candidate` does, and goes on from there as the short form
/// does. What `candidate` has behind the partition is dropped.
pub open spec fn expands_to(
    partial: Seq<NodeView>,
    candidate: Seq<NodeView>,
    expanded: Seq<NodeView>,
) -> bool {
    exists|drive: int, index: int|
        #![trigger first_hard_drive(partial, drive), partition_found_at(candidate, partial[drive], index)]
        first_hard_drive(partial, drive) && partition_found_at(candidate, partial[drive], index)
            && expanded == candidate.take(index + 1) + rest_behind(partial, drive)
            + seq![node::end_entire()]
}

/// The device path that a handle was found to have, if any.
pub open spec fn path_of(reply: Result<Seq<u8>, Status>) -> Option<Seq<NodeView>> {
    match reply {
        Ok(bytes) => path::decoded(bytes),
        Err(_) => None,
    }
}

/// The handle's device path leads to the partition that the short form names.
pub open spec fn reply_matches(partial: Seq<NodeView>, reply: Result<Seq<u8>, Status>) -> bool {
    path_of(reply) matches Some(candidate) && leads_to_partition(partial, candidate)
}

/// The exchanges look through the handles with a device path for one that leads to the partition
/// of the short form. They ask one handle after the other for its path, and stop at the first that
/// matches.
pub open spec fn searches_topology(
    partial: Seq<NodeView>,
    exchanges: Seq<Exchange>,
    outcome: Result<Seq<NodeView>, EfiError>,
) -> bool {
    &&& exchanges.len() > 0
    &&& exchanges[0] matches Exchange::LocateHandles { search, reply }
    &&& search == Search::ByProtocol(guid::spec_device_path_guid())
    &&& match reply {
        Err(status) => {
            &&& exchanges.len() == 1
            &&& outcome == Err::<Seq<NodeView>, EfiError>(error::error_of(status))
        },
        Ok(handles) => {
            let asked = exchanges.len() - 1;
            &&& asked <= handles.len()
            &&& forall|i: int|
                1 <= i <= asked ==> (#[trigger] exchanges[i] matches Exchange::DevicePath {
                    handle,
                    ..
                } && handle == handles[i - 1])
            &&& forall|i: int|
                1 <= i < asked ==> !reply_matches(
                    partial,
                    (#[trigger] exchanges[i])->DevicePath_reply,
                )
            &&& match outcome {
                Ok(expanded) => {
                    &&& asked > 0
                    &&& path_of(exchanges.last()->DevicePath_reply) matches Some(candidate)
                    &&& expands_to(partial, candidate, expanded)
                },
                Err(failure) => {
                    &&& failure == EfiError::NotFound
                    &&& asked == handles.len()
                    &&& asked > 0 ==> !reply_matches(
                        partial,
                        exchanges.last()->DevicePath_reply,
                    )
                },
            }
        },
    }
}

/// The exchanges expand the path, with that outcome. A full path is left as it is, and a path that
/// names no partition is refused, both without any call.
pub open spec fn expands(
    partial: Seq<NodeView>,
    exchanges: Seq<Exchange>,
    outcome: Result<Seq<NodeView>, EfiError>,
) -> bool {
    if partial.len() == 1 {
        exchanges.len() == 0 && outcome == Err::<Seq<NodeView>, EfiError>(
            EfiError::InvalidParameter,
        )
    } else if !is_partial(partial) {
        exchanges.len() == 0 && outcome == Ok::<Seq<NodeView>, EfiError>(partial)
    } else if !has_hard_drive(partial) {
        exchanges.len() == 0 && outcome == Err::<Seq<NodeView>, EfiError>(
            EfiError::InvalidParameter,
        )
    } else {
        searches_topology(partial, exchanges, outcome)
    }
}

/// The nodes of the path, or the error in place of one.
pub open spec fn outcome_view(outcome: Result<DevicePathBuf, EfiError>) -> Result<
    Seq<NodeView>,
    EfiError,
> {
    match outcome {
        Ok(path) => Ok(path@),
        Err(failure) => Err(failure),
    }
}

/// Index of the first hard drive node, with what it says.
fn find_hard_drive(device_path: &DevicePathBuf) -> (found: Option<(usize, HardDrive)>)
    ensures
        found is Some <==> has_hard_drive(device_path@),
        found matches Some((index, drive)) ==> {
            &&& first_hard_drive(device_path@, index as int)
            &&& drive.describes(device_path@[index as int])
        },
{
    let mut i: usize = 0;
    while i < device_path.node_count()
        invariant
            i <= device_path@.len(),
            forall|k: int| 0 <= k < i ==> !(#[trigger] device_path@[k]).is_hard_drive(),
        decreases device_path@.len() - i,
    {
        if let Some(drive) = HardDrive::try_from_node(device_path.node(i)) {
            assert(first_hard_drive(device_path@, i as int));
            return Some((i, drive));
        }
        i += 1;
    }
    None
}

/// Copies of the nodes behind `index` but for those that end an instance or the path.
fn nodes_behind(device_path: &DevicePathBuf, index: usize) -> (nodes: Vec<DevicePathNode>)
    requires
        index < device_path@.len(),
    ensures
        path::views(nodes@) == rest_behind(device_path@, index as int),
{
    let ghost keep = |node: NodeView| !node.is_end();
    let ghost behind = device_path@.skip(index + 1);
    let mut nodes: Vec<DevicePathNode> = Vec::new();
    let count: usize = device_path.node_count();
    let mut i: usize = index + 1;
    assert(behind.take(0).filter(keep) =~= Seq::<NodeView>::empty()) by {
        reveal(Seq::filter);
    }
    while i < count
        invariant
            index + 1 <= i <= count,
            count == device_path@.len(),
            behind == device_path@.skip(index + 1),
            keep == (|node: NodeView| !node.is_end()),
            path::views(nodes@) == behind.take(i - index - 1).filter(keep),
        decreases count - i,
    {
        let ghost before = nodes@;
        let ghost k = i - index - 1;
        proof {
            reveal(Seq::filter);
            assert(behind.take(k + 1).drop_last() =~= behind.take(k));
            assert(behind.take(k + 1).last() == device_path@[i as int]);
        }
        let node = device_path.node(i);
        if node.node_type() != TYPE_END {
            nodes.push(node.clone());
            assert(path::views(nodes@) =~= path::views(before).push(device_path@[i as int]));
        }
        i += 1;
    }
    assert(behind.take(behind.len() as int) =~= behind);
    nodes
}

/// Where the first instance of `candidate` names the partition of `drive` first.
fn find_partition(
    candidate: &DevicePathBuf,
    drive: &HardDrive,
    Ghost(target): Ghost<NodeView>,
) -> (found: Option<usize>)
    requires
        drive.describes(target),
    ensures
        found matches Some(index) ==> partition_found_at(candidate@, target, index as int),
        found is None ==> forall|index: int| !partition_found_at(candidate@, target, index),
{
    let mut i: usize = 0;
    while i < candidate.node_count()
        invariant
            i <= candidate@.len(),
            drive.describes(target),
            forall|k: int|
                0 <= k < i ==> !(#[trigger] candidate@[k]).is_end() && !candidate@[k].same_partition(
                    target,
                ),
        decreases candidate@.len() - i,
    {
        let node = candidate.node(i);
        if node.node_type() == TYPE_END {
            assert(candidate@[i as int].is_end());
            return None;
        }
        if let Some(found) = HardDrive::try_from_node(node) {
            if found.same_partition(drive) {
                return Some(i);
            }
        }
        i += 1;
    }
    None
}

/// The path that has the first nodes of `candidate`, up to the one at `index`, and then `rest`.
fn splice(candidate: &DevicePathBuf, index: usize, rest: Vec<DevicePathNode>) -> (spliced:
    DevicePathBuf)
    requires
        index < candidate@.len(),
        forall|i: int| 0 <= i <= index ==> !(#[trigger] candidate@[i]).is_end_entire(),
        forall|i: int|
            0 <= i < rest@.len() ==> !(#[trigger] path::views(rest@)[i]).is_end_entire(),
    ensures
        spliced@ == candidate@.take(index + 1) + path::views(rest@) + seq![node::end_entire()],
{
    let count: usize = candidate.node_count();
    assert(index + 1 <= count);
    let prefix = candidate.first_nodes(index + 1);
    proof {
        path::lemma_terminated_keeps(path::views(prefix@));
        path::lemma_terminated_keeps(path::views(rest@));
    }
    let mut spliced = DevicePathBuf::from_nodes(prefix);
    let rest_path = DevicePathBuf::from_nodes(rest);
    spliced.append_device_path(&rest_path);
    assert(spliced@ =~= candidate@.take(index + 1) + path::views(rest@)
        + seq![node::end_entire()]);
    spliced
}

/// Expands a short-form device path to the full path of the device that it names, by looking for
/// the partition among the devices of the system.
///
/// A path that is full already comes back unchanged. Fails with `InvalidParameter` where the path
/// is empty or names no partition, and with `NotFound` where no device has the partition.
pub fn expand_device_path<B: BootServices>(
    firmware: &mut Firmware<B>,
    partial_path: &DevicePathBuf,
) -> (outcome: Result<DevicePathBuf, EfiError>)
    ensures
        final(firmware).follows(*old(firmware)),
        expands(partial_path@, final(firmware).since(*old(firmware)), outcome_view(outcome)),
{
    let ghost start = *firmware;
    if partial_path.node_count() == 1 {
        return Err(EfiError::InvalidParameter);
    }
    if !is_partial_device_path(partial_path) {
        return Ok(partial_path.clone());
    }
    let (drive_index, drive) = match find_hard_drive(partial_path) {
        Some(found) => found,
        None => {
            return Err(EfiError::InvalidParameter);
        },
    };
    let ghost target = partial_path@[drive_index as int];
    let handles = match firmware.locate_handle_buffer(
        HandleSearch::ByProtocol(Guid::device_path()),
    ) {
        Ok(handles) => handles,
        Err(status) => {
            return Err(EfiError::from_status(status));
        },
    };
    let mut i: usize = 0;
    while i < handles.len()
        invariant
            i <= handles@.len(),
            start == *old(firmware),
            firmware.follows(start),
            partial_path@.len() != 1,
            is_partial(partial_path@),
            first_hard_drive(partial_path@, drive_index as int),
            target == partial_path@[drive_index as int],
            drive.describes(target),
            firmware.since(start).len() == i + 1,
            firmware.since(start)[0] == (Exchange::LocateHandles {
                search: Search::ByProtocol(guid::spec_device_path_guid()),
                reply: Ok(handles@),
            }),
            forall|k: int|
                1 <= k <= i ==> (#[trigger] firmware.since(start)[k] matches Exchange::DevicePath {
                    handle,
                    ..
                } && handle == handles@[k - 1]),
            forall|k: int|
                1 <= k <= i ==> !reply_matches(
                    partial_path@,
                    (#[trigger] firmware.since(start)[k])->DevicePath_reply,
                ),
        decreases handles@.len() - i,
    {
        let ghost before = firmware.since(start);
        let reply = firmware.device_path(handles[i]);
        assert(firmware.since(start) =~= before.push(
            Exchange::DevicePath {
                handle: handles@[i as int],
                reply: crate::firmware::bytes_view(reply),
            },
        ));
        i += 1;
        if let Ok(bytes) = reply {
            if let Some(candidate) = DevicePathBuf::try_from_bytes(&bytes) {
                if let Some(index) = find_partition(&candidate, &drive, Ghost(target)) {
                    let rest = nodes_behind(partial_path, drive_index);
                    proof {
                        lemma_rest_has_no_end(partial_path@, drive_index as int);
                    }
                    let expanded = splice(&candidate, index, rest);
                    return Ok(expanded);
                }
            }
        }
        proof {
            lemma_first_hard_drive_unique(partial_path@, drive_index as int);
        }
    }
    Err(EfiError::NotFound)
}

/// An expansion only looks at handles and their paths.
pub proof fn lemma_expansion_only_looks(
    partial: Seq<NodeView>,
    exchanges: Seq<Exchange>,
    outcome: Result<Seq<NodeView>, EfiError>,
)
    requires
        expands(partial, exchanges, outcome),
    ensures
        forall|i: int|
            0 <= i < exchanges.len() ==> #[trigger] exchanges[i] is LocateHandles
                || exchanges[i] is DevicePath,
{
}

/// A handle's path can be expanded to in one way only.
pub proof fn expansion_is_unique(
    partial: Seq<NodeView>,
    candidate: Seq<NodeView>,
    one: Seq<NodeView>,
    other: Seq<NodeView>,
)
    requires
        expands_to(partial, candidate, one),
        expands_to(partial, candidate, other),
    ensures
        one == other,
{
    let (drive, index) = choose|drive: int, index: int|
        #![trigger first_hard_drive(partial, drive), partition_found_at(candidate, partial[drive], index)]
        first_hard_drive(partial, drive) && partition_found_at(candidate, partial[drive], index)
            && one == candidate.take(index + 1) + rest_behind(partial, drive)
            + seq![node::end_entire()];
    lemma_first_hard_drive_unique(partial, drive);
    assert forall|found: int| partition_found_at(candidate, partial[drive], found) implies found
        == index by {
        if found < index {
            assert(!candidate[found].same_partition(partial[drive]));
        } else if index < found {
            assert(!candidate[index].same_partition(partial[drive]));
        }
    }
}

/// The replies of the firmware decide what comes of an expansion.
pub proof fn expansion_is_determined(
    partial: Seq<NodeView>,
    exchanges: Seq<Exchange>,
    one: Result<Seq<NodeView>, EfiError>,
    other: Result<Seq<NodeView>, EfiError>,
)
    requires
        expands(partial, exchanges, one),
        expands(partial, exchanges, other),
    ensures
        one == other,
{
    if one is Ok && other is Ok && exchanges.len() > 0 {
        let candidate = path_of(exchanges.last()->DevicePath_reply)->0;
        expansion_is_unique(partial, candidate, one->Ok_0, other->Ok_0);
    }
}

/// The expanded path is a device path that starts where the handle's path starts, so it is full
/// where the handle's path is, and it leads to the partition that the short form names.
pub proof fn expansion_leads_to_partition(
    partial: Seq<NodeView>,
    candidate: Seq<NodeView>,
    expanded: Seq<NodeView>,
)
    requires
        path::is_device_path(partial),
        path::is_device_path(candidate),
        expands_to(partial, candidate, expanded),
    ensures
        path::is_device_path(expanded),
        expanded[0] == candidate[0],
        is_partial(expanded) == is_partial(candidate),
        leads_to_partition(partial, expanded),
{
    let (drive, index) = choose|drive: int, index: int|
        #![trigger first_hard_drive(partial, drive), partition_found_at(candidate, partial[drive], index)]
        first_hard_drive(partial, drive) && partition_found_at(candidate, partial[drive], index)
            && expanded == candidate.take(index + 1) + rest_behind(partial, drive)
            + seq![node::end_entire()];
    let rest = rest_behind(partial, drive);
    lemma_rest_has_no_end(partial, drive);
    lemma_rest_fits(partial, drive);
    assert forall|i: int| 0 <= i < expanded.len() implies (#[trigger] expanded[i]).fits() && (i
        < expanded.len() - 1 ==> !expanded[i].is_end_entire()) by {
        if i <= index {
            assert(expanded[i] == candidate[i]);
        } else if i < expanded.len() - 1 {
            assert(expanded[i] == rest[i - index - 1]);
        }
    }
    assert forall|i: int| 0 <= i < index implies !(#[trigger] expanded[i]).is_end()
        && !expanded[i].same_partition(partial[drive]) by {
        assert(expanded[i] == candidate[i]);
    }
    assert(partition_found_at(expanded, partial[drive], index));
}

/// Expanding a path that an expansion gave changes nothing and asks nothing of the firmware, where
/// the handle's path was full.
pub proof fn expansion_is_idempotent(
    partial: Seq<NodeView>,
    candidate: Seq<NodeView>,
    expanded: Seq<NodeView>,
    exchanges: Seq<Exchange>,
    outcome: Result<Seq<NodeView>, EfiError>,
)
    requires
        path::is_device_path(partial),
        path::is_device_path(candidate),
        !is_partial(candidate),
        expands_to(partial, candidate, expanded),
        expands(expanded, exchanges, outcome),
    ensures
        exchanges.len() == 0,
        outcome == Ok::<Seq<NodeView>, EfiError>(expanded),
{
    expansion_leads_to_partition(partial, candidate, expanded);
}

/// A path has only one first hard drive node.
proof fn lemma_first_hard_drive_unique(path: Seq<NodeView>, index: int)
    requires
        first_hard_drive(path, index),
    ensures
        forall|other: int| first_hard_drive(path, other) ==> other == index,
{
    assert forall|other: int| first_hard_drive(path, other) implies other == index by {
        if other < index {
            assert(!path[other].is_hard_drive());
        } else if index < other {
            assert(!path[index].is_hard_drive());
        }
    }
}

/// What a short form says behind its partition is made of its own nodes.
proof fn lemma_rest_fits(path: Seq<NodeView>, index: int)
    requires
        path::is_device_path(path),
        0 <= index < path.len(),
    ensures
        forall|i: int|
            0 <= i < rest_behind(path, index).len() ==> (#[trigger] rest_behind(
                path,
                index,
            )[i]).fits(),
{
    broadcast use Seq::lemma_filter_contains_rev;

    let keep = |node: NodeView| !node.is_end();
    let behind = path.skip(index + 1);
    assert forall|i: int| 0 <= i < rest_behind(path, index).len() implies (#[trigger] rest_behind(
        path,
        index,
    )[i]).fits() by {
        assert(behind.filter(keep).contains(behind.filter(keep)[i]));
        assert(behind.contains(behind.filter(keep)[i]));
        let k = choose|k: int| 0 <= k < behind.len() && behind[k] == behind.filter(keep)[i];
        assert(path[k + index + 1].fits());
    }
}

/// What a short form says behind its partition holds no end.
proof fn lemma_rest_has_no_end(path: Seq<NodeView>, index: int)
    ensures
        forall|i: int|
            0 <= i < rest_behind(path, index).len() ==> !(#[trigger] rest_behind(
                path,
                index,
            )[i]).is_end(),
{
    let keep = |node: NodeView| !node.is_end();
    broadcast use Seq::lemma_filter_pred;

    assert forall|i: int| 0 <= i < rest_behind(path, index).len() implies !(#[trigger] rest_behind(
        path,
        index,
    )[i]).is_end() by {
        assert(keep(path.skip(index + 1).filter(keep)[i]));
    }
}

} // verus!
