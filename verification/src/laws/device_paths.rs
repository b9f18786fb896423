//! Laws of device paths.
use vstd::prelude::*;

use crate::device_path::node;
use crate::device_path::node::{HardDrive, NodeView};
use crate::device_path::path;

verus! {

/// What lies in memory is made of what lies there of the pieces.
proof fn lemma_encoded_adds(first: Seq<NodeView>, second: Seq<NodeView>)
    ensures
        path::encoded(first + second) == path::encoded(first) + path::encoded(second),
    decreases first.len(),
{
    if first.len() == 0 {
        assert(first + second =~= second);
        assert(path::encoded(first) + path::encoded(second) =~= path::encoded(second));
    } else {
        assert((first + second).drop_first() =~= first.drop_first() + second);
        lemma_encoded_adds(first.drop_first(), second);
        assert(path::encoded(first + second) =~= path::encoded(first) + path::encoded(second));
    }
}

/// Every node of a path lies in memory behind the nodes before it and ahead of those behind it: its
/// type, its subtype, its length with the header, low byte first, and all of its data.
pub proof fn nodes_lie_in_memory(before: Seq<NodeView>, node: NodeView, behind: Seq<NodeView>)
    requires
        node.data.len() <= 0xfffb,
    ensures
        ({
            let bytes = path::encoded(before + seq![node] + behind);
            let at = path::encoded(before).len() as int;
            let end = at + 4 + node.data.len();
            &&& end <= bytes.len()
            &&& bytes.take(at) == path::encoded(before)
            &&& bytes[at] == node.node_type
            &&& bytes[at + 1] == node.sub_type
            &&& bytes[at + 2] + 0x100 * bytes[at + 3] == node.data.len() + 4
            &&& bytes.subrange(at + 4, end) == node.data
            &&& bytes.skip(end) == path::encoded(behind)
        }),
{
    let one = seq![node];
    let bytes = path::encoded(before + one + behind);
    let at = path::encoded(before).len() as int;
    lemma_encoded_adds(before + one, behind);
    lemma_encoded_adds(before, one);
    assert(one.drop_first() =~= Seq::<NodeView>::empty());
    assert(path::encoded(one.drop_first()) =~= Seq::<u8>::empty());
    assert(path::encoded(one) =~= node.encoded());
    assert(bytes =~= path::encoded(before) + node.encoded() + path::encoded(behind));
    let length = node.data.len() + 4;
    assert(bytes[at + 2] == (length % 0x100) as u8);
    assert(bytes[at + 3] == (length / 0x100) as u8);
    assert(bytes.take(at) =~= path::encoded(before));
    assert(bytes.subrange(at + 4, at + length) =~= node.data);
    assert(bytes.skip(at + length) =~= path::encoded(behind));
}

/// A device path is what ends in the one node that has the type and subtype of an end, and whose
/// nodes all have data that fits the two bytes of a length.
pub proof fn device_paths_end_once(nodes: Seq<NodeView>)
    ensures
        path::is_device_path(nodes) <==> {
            &&& nodes.len() > 0
            &&& forall|i: int|
                0 <= i < nodes.len() ==> (((#[trigger] nodes[i]).node_type == 0x7f
                    && nodes[i].sub_type == 0xff) <==> i == nodes.len() - 1)
            &&& forall|i: int| 0 <= i < nodes.len() ==> (#[trigger] nodes[i]).data.len() <= 0xfffb
        },
{
    if path::is_device_path(nodes) {
        assert forall|i: int| 0 <= i < nodes.len() implies ((#[trigger] nodes[i]).node_type == 0x7f
            && nodes[i].sub_type == 0xff) == (i == nodes.len() - 1) && nodes[i].data.len()
            <= 0xfffb by {
            assert(nodes[i].fits());
            if i < nodes.len() - 1 {
                assert(!nodes[i].is_end_entire());
            }
        }
    }
}

/// Bytes are read as a path exactly where a device path lies at their start, and as that path.
pub proof fn reading_finds_the_path(bytes: Seq<u8>, nodes: Seq<NodeView>)
    ensures
        path::decoded(bytes) == Some(nodes) <==> path::is_device_path(nodes) && path::encoded(
            nodes,
        ).len() <= bytes.len() && bytes.take(path::encoded(nodes).len() as int)
            == path::encoded(nodes),
{
    let length = path::encoded(nodes).len() as int;
    if path::decoded(bytes) == Some(nodes) {
        path::encode_inverts_decode(bytes);
        assert(bytes.take(length) =~= path::encoded(nodes));
    }
    if path::is_device_path(nodes) && length <= bytes.len() && bytes.take(length)
        == path::encoded(nodes) {
        path::decode_inverts_encode(nodes, bytes.skip(length));
        assert(bytes =~= path::encoded(nodes) + bytes.skip(length));
    }
}

/// A path has all the nodes ahead of the first end that it is made of, in order, and then an end
/// without data.
pub proof fn path_keeps_nodes_up_to_the_end(nodes: Seq<NodeView>, end: int)
    requires
        0 <= end <= nodes.len(),
        forall|i: int|
            0 <= i < end ==> !((#[trigger] nodes[i]).node_type == 0x7f && nodes[i].sub_type
                == 0xff),
        end < nodes.len() ==> nodes[end].node_type == 0x7f && nodes[end].sub_type == 0xff,
    ensures
        path::terminated(nodes) == nodes.take(end).push(
            NodeView { node_type: 0x7f, sub_type: 0xff, data: Seq::empty() },
        ),
    decreases nodes.len(),
{
    if end == 0 {
        assert(nodes.take(0) =~= Seq::<NodeView>::empty());
        assert(path::terminated(nodes) =~= nodes.take(end).push(node::end_entire()));
    } else {
        let rest = nodes.drop_first();
        assert forall|i: int| 0 <= i < end - 1 implies !((#[trigger] rest[i]).node_type == 0x7f
            && rest[i].sub_type == 0xff) by {
            assert(rest[i] == nodes[i + 1]);
        }
        path_keeps_nodes_up_to_the_end(rest, end - 1);
        assert(!nodes[0].is_end_entire());
        assert(path::terminated(nodes) =~= nodes.take(end).push(node::end_entire()));
    }
}

/// A path that goes on with another has all nodes of both, in order, but for the end of the first.
pub proof fn joined_path_has_all_nodes(first: Seq<NodeView>, second: Seq<NodeView>, i: int)
    requires
        first.len() > 0,
        0 <= i < path::joined(first, second).len(),
    ensures
        path::joined(first, second).len() == first.len() - 1 + second.len(),
        path::joined(first, second)[i] == if i < first.len() - 1 {
            first[i]
        } else {
            second[i - first.len() + 1]
        },
{
}

/// A path with more instances has all nodes of both, in order, and the end of an instance in place
/// of the end of the first.
pub proof fn instances_have_all_nodes(first: Seq<NodeView>, second: Seq<NodeView>, i: int)
    requires
        first.len() > 0,
        0 <= i < path::with_instances(first, second).len(),
    ensures
        path::with_instances(first, second).len() == first.len() + second.len(),
        path::with_instances(first, second)[i] == if i < first.len() - 1 {
            first[i]
        } else if i == first.len() - 1 {
            NodeView { node_type: 0x7f, sub_type: 0x01, data: Seq::empty() }
        } else {
            second[i - first.len()]
        },
{
}

/// Behind any number of nodes that do not end the path, what is missing is the rest of the header or
/// of the node; nothing is missing behind a header that cannot be one, or behind the end.
pub proof fn missing_is_the_rest_of_a_node(nodes: Seq<NodeView>, behind: Seq<u8>)
    requires
        forall|i: int|
            0 <= i < nodes.len() ==> (#[trigger] nodes[i]).data.len() <= 0xfffb && !(
            nodes[i].node_type == 0x7f && nodes[i].sub_type == 0xff),
    ensures
        ({
            let missing = path::missing(path::encoded(nodes) + behind);
            let length = behind[2] + 0x100 * behind[3];
            &&& behind.len() < 4 ==> missing == 4 - behind.len()
            &&& behind.len() >= 4 && length < 4 ==> missing == 0
            &&& behind.len() >= 4 && length > behind.len() ==> missing == length - behind.len()
            &&& behind.len() >= 4 && 4 <= length <= behind.len() && behind[0] == 0x7f && behind[1]
                == 0xff ==> missing == 0
        }),
    decreases nodes.len(),
{
    let bytes = path::encoded(nodes) + behind;
    if nodes.len() == 0 {
        assert(bytes =~= behind);
    } else {
        let node = nodes[0];
        let rest = nodes.drop_first();
        let length = node.data.len() + 4;
        assert forall|i: int| 0 <= i < rest.len() implies (#[trigger] rest[i]).data.len() <= 0xfffb
            && !(rest[i].node_type == 0x7f && rest[i].sub_type == 0xff) by {
            assert(rest[i] == nodes[i + 1]);
        }
        missing_is_the_rest_of_a_node(rest, behind);
        assert(bytes =~= node.encoded() + (path::encoded(rest) + behind));
        assert(bytes[2] == (length % 0x100) as u8);
        assert(bytes[3] == (length / 0x100) as u8);
        assert(path::first_node(bytes) =~= node);
        assert(bytes.skip(length as int) =~= path::encoded(rest) + behind);
    }
}

/// The longest node has the greatest length that two bytes can hold.
pub proof fn longest_node_fits_two_bytes()
    ensures
        node::MAX_DATA_LENGTH + 4 == 0xffff,
{
}

/// What a node is can be told by its type, its subtype and the length of its data.
pub proof fn nodes_are_told_by_their_header(node: NodeView)
    ensures
        node.fits() <==> node.data.len() <= 0xfffb,
        node.is_end() <==> node.node_type == 0x7f,
        node.is_end_entire() <==> node.node_type == 0x7f && node.sub_type == 0xff,
        node.is_hard_drive() <==> node.node_type == 4 && node.sub_type == 1 && node.data.len()
            >= 38,
{
}

/// Two nodes are of the same partition where both are hard drive nodes with the same sixteen bytes of
/// signature and the same kind of signature; what else they say does not matter.
pub proof fn partitions_are_told_by_signature(one: NodeView, other: NodeView)
    ensures
        one.same_partition(other) <==> {
            &&& one.node_type == 4 && one.sub_type == 1 && one.data.len() >= 38
            &&& other.node_type == 4 && other.sub_type == 1 && other.data.len() >= 38
            &&& forall|i: int| 20 <= i < 36 ==> #[trigger] one.data[i] == other.data[i]
            &&& one.data[37] == other.data[37]
        },
{
    if one.data.len() >= 38 && other.data.len() >= 38 {
        let a = one.data.subrange(20, 36);
        let b = other.data.subrange(20, 36);
        if a == b {
            assert forall|i: int| 20 <= i < 36 implies #[trigger] one.data[i] == other.data[i] by {
                assert(a[i - 20] == b[i - 20]);
            }
        }
        if forall|i: int| 20 <= i < 36 ==> #[trigger] one.data[i] == other.data[i] {
            assert(a =~= b);
        }
    }
}

/// What is read of a hard drive node is its signature and the kind of it.
pub proof fn drives_hold_the_signature(drive: HardDrive, node: NodeView)
    ensures
        drive.describes(node) <==> node.node_type == 4 && node.sub_type == 1 && node.data.len()
            >= 38 && drive.partition_signature@ == node.data.subrange(20, 36)
            && drive.signature_type == node.data[37],
{
}

/// The ends of a path and of an instance have no data, and differ in the subtype.
pub proof fn ends_have_no_data()
    ensures
        node::end_entire() == (NodeView { node_type: 0x7f, sub_type: 0xff, data: Seq::empty() }),
        node::end_instance() == (NodeView { node_type: 0x7f, sub_type: 0x01, data: Seq::empty() }),
{
}

/// A list of node values stands for just as many nodes, each as it is.
pub proof fn every_node_is_seen(nodes: Seq<crate::device_path::DevicePathNode>, i: int)
    requires
        0 <= i < nodes.len(),
    ensures
        path::views(nodes).len() == nodes.len(),
        path::views(nodes)[i] == nodes[i]@,
{
}

} // verus!
