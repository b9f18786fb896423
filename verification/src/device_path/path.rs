//! Whole device paths, as nodes and as bytes.
use vstd::prelude::*;

use super::node;
use super::node::{DevicePathNode, NodeView, END_ENTIRE, HEADER_LENGTH, TYPE_END};

verus! {

/// The nodes are a device path: every node fits its header, the last node ends the whole path, and
/// no other node does.
pub open spec fn is_device_path(path: Seq<NodeView>) -> bool {
    &&& path.len() > 0
    &&& path.last().is_end_entire()
    &&& forall|i: int| 0 <= i < path.len() ==> (#[trigger] path[i]).fits()
    &&& forall|i: int| 0 <= i < path.len() - 1 ==> !(#[trigger] path[i]).is_end_entire()
}

/// The path as it lies in memory: its nodes, one behind the other.
pub open spec fn encoded(path: Seq<NodeView>) -> Seq<u8>
    decreases path.len(),
{
    if path.len() == 0 {
        Seq::empty()
    } else {
        path[0].encoded() + encoded(path.drop_first())
    }
}

/// The length that the header at the start of `bytes` gives its node.
pub open spec fn header_length(bytes: Seq<u8>) -> int {
    bytes[2] + bytes[3] * 0x100
}

/// `bytes` starts with a whole node.
pub open spec fn starts_with_node(bytes: Seq<u8>) -> bool {
    &&& bytes.len() >= HEADER_LENGTH
    &&& HEADER_LENGTH <= header_length(bytes) <= bytes.len()
}

/// The node at the start of `bytes`.
pub open spec fn first_node(bytes: Seq<u8>) -> NodeView {
    NodeView {
        node_type: bytes[0],
        sub_type: bytes[1],
        data: bytes.subrange(HEADER_LENGTH as int, header_length(bytes)),
    }
}

/// The path at the start of `bytes`, read node by node up to the one that ends the whole path.
/// `None` where a node is cut short before that.
pub open spec fn decoded(bytes: Seq<u8>) -> Option<Seq<NodeView>>
    decreases bytes.len(),
{
    if !starts_with_node(bytes) {
        None
    } else if first_node(bytes).is_end_entire() {
        Some(seq![first_node(bytes)])
    } else {
        match decoded(bytes.skip(header_length(bytes))) {
            Some(rest) => Some(seq![first_node(bytes)] + rest),
            None => None,
        }
    }
}

/// How many bytes of a path that lies in memory are to be read next, behind those read so far: what
/// is missing of the header or of the data of the node that they end in. None, once they hold the
/// node that ends the path, or a header that gives its node less than the length of a header.
pub open spec fn missing(bytes: Seq<u8>) -> int
    decreases bytes.len(),
{
    if bytes.len() < HEADER_LENGTH {
        HEADER_LENGTH - bytes.len()
    } else if header_length(bytes) < HEADER_LENGTH {
        0
    } else if header_length(bytes) > bytes.len() {
        header_length(bytes) - bytes.len()
    } else if first_node(bytes).is_end_entire() {
        0
    } else {
        missing(bytes.skip(header_length(bytes)))
    }
}

/// How many bytes of a path that lies in memory are to be read next, behind `bytes`. Zero once the
/// path is complete, or found to be malformed.
pub fn missing_bytes(bytes: &Vec<u8>) -> (count: usize)
    ensures
        count == missing(bytes@),
{
    let mut at: usize = 0;
    assert(bytes@.skip(0) =~= bytes@);
    loop
        invariant
            at <= bytes@.len(),
            missing(bytes@) == missing(bytes@.skip(at as int)),
        decreases bytes@.len() - at,
    {
        let left: usize = bytes.len() - at;
        if left < HEADER_LENGTH {
            return HEADER_LENGTH - left;
        }
        let length: usize = bytes[at + 2] as usize + bytes[at + 3] as usize * 0x100;
        if length < HEADER_LENGTH {
            return 0;
        }
        if length > left {
            return length - left;
        }
        if bytes[at] == TYPE_END && bytes[at + 1] == END_ENTIRE {
            return 0;
        }
        assert(bytes@.skip(at as int).skip(length as int) =~= bytes@.skip(at + length));
        at += length;
    }
}

/// The path that consists of the nodes before the first one that ends a whole path, and an end.
pub open spec fn terminated(nodes: Seq<NodeView>) -> Seq<NodeView>
    decreases nodes.len(),
{
    if nodes.len() == 0 || nodes[0].is_end_entire() {
        seq![node::end_entire()]
    } else {
        seq![nodes[0]] + terminated(nodes.drop_first())
    }
}

/// The path that goes on with `next` where `path` ends.
pub open spec fn joined(path: Seq<NodeView>, next: Seq<NodeView>) -> Seq<NodeView> {
    path.drop_last() + next
}

/// The multi-instance path that has the instances of `next` behind those of `path`.
pub open spec fn with_instances(path: Seq<NodeView>, next: Seq<NodeView>) -> Seq<NodeView> {
    path.drop_last().push(node::end_instance()) + next
}

/// The nodes that a list of node values stands for.
pub open spec fn views(nodes: Seq<DevicePathNode>) -> Seq<NodeView> {
    nodes.map_values(|node: DevicePathNode| node@)
}

/// A device path: the nodes that lead to a device, and an end.
#[derive(Debug, PartialEq, Eq)]
pub struct DevicePathBuf {
    nodes: Vec<DevicePathNode>,
}

impl View for DevicePathBuf {
    type V = Seq<NodeView>;

    closed spec fn view(&self) -> Seq<NodeView> {
        views(self.nodes@)
    }
}

impl Clone for DevicePathBuf {
    fn clone(&self) -> (copy: Self)
        ensures
            copy@ == self@,
    {
        proof {
            use_type_invariant(self);
        }
        let nodes = clone_nodes(&self.nodes, self.nodes.len());
        assert(views(nodes@) =~= self@);
        DevicePathBuf { nodes }
    }
}

/// Copies of the first `count` nodes.
fn clone_nodes(nodes: &Vec<DevicePathNode>, count: usize) -> (copies: Vec<DevicePathNode>)
    requires
        count <= nodes@.len(),
    ensures
        views(copies@) == views(nodes@).take(count as int),
{
    let mut copies: Vec<DevicePathNode> = Vec::new();
    let mut i: usize = 0;
    while i < count
        invariant
            i <= count <= nodes@.len(),
            views(copies@) == views(nodes@).take(i as int),
        decreases count - i,
    {
        let ghost before = copies@;
        let copy = nodes[i].clone();
        copies.push(copy);
        i += 1;
        assert(views(copies@) =~= views(before).push(views(nodes@)[i - 1]));
        assert(views(nodes@).take(i as int) =~= views(nodes@).take(i - 1).push(
            views(nodes@)[i - 1],
        ));
    }
    copies
}

impl DevicePathBuf {
    /// The nodes are a device path.
    #[verifier::type_invariant]
    pub open spec fn wf(&self) -> bool {
        is_device_path(self@)
    }

    /// The path made of the nodes before the first one that ends a whole path.
    pub fn from_nodes(nodes: Vec<DevicePathNode>) -> (path: Self)
        ensures
            path@ == terminated(views(nodes@)),
    {
        let ghost all = views(nodes@);
        let mut kept: Vec<DevicePathNode> = Vec::new();
        let mut i: usize = 0;
        assert(all.skip(0) =~= all);
        while i < nodes.len() && !(nodes[i].node_type() == TYPE_END && nodes[i].sub_type()
            == END_ENTIRE)
            invariant
                i <= nodes@.len(),
                all == views(nodes@),
                views(kept@) == all.take(i as int),
                terminated(all) == views(kept@) + terminated(all.skip(i as int)),
                forall|k: int| 0 <= k < kept@.len() ==> (#[trigger] views(kept@)[k]).fits(),
                forall|k: int| 0 <= k < kept@.len() ==> !(#[trigger] views(kept@)[k]).is_end_entire(),
            decreases nodes@.len() - i,
        {
            let ghost before = kept@;
            let copy = nodes[i].clone();
            proof {
                use_type_invariant(&copy);
            }
            kept.push(copy);
            proof {
                assert(views(kept@) =~= views(before).push(all[i as int]));
                assert(all.take(i + 1) =~= all.take(i as int).push(all[i as int]));
                assert(all.skip(i as int).drop_first() =~= all.skip(i + 1));
                assert(views(before) + (seq![all[i as int]] + terminated(all.skip(i + 1)))
                    =~= views(kept@) + terminated(all.skip(i + 1)));
            }
            i += 1;
        }
        let ghost before = kept@;
        kept.push(DevicePathNode::end_entire());
        assert(views(kept@) =~= views(before).push(node::end_entire()));
        assert(terminated(all) =~= views(kept@));
        DevicePathBuf { nodes: kept }
    }

    /// Reads the path at the start of `bytes`. `None` where a node is cut short before the path
    /// ends.
    pub fn try_from_bytes(bytes: &Vec<u8>) -> (path: Option<Self>)
        ensures
            path is Some <==> decoded(bytes@) is Some,
            path matches Some(p) ==> p@ == decoded(bytes@)->0,
    {
        let mut nodes: Vec<DevicePathNode> = Vec::new();
        let mut at: usize = 0;
        assert(bytes@.skip(0) =~= bytes@);
        loop
            invariant
                at <= bytes@.len(),
                decoded(bytes@) == match decoded(bytes@.skip(at as int)) {
                    Some(rest) => Some(views(nodes@) + rest),
                    None => None,
                },
            decreases bytes@.len() - at,
        {
            let ghost rest = bytes@.skip(at as int);
            if bytes.len() - at < HEADER_LENGTH {
                return None;
            }
            let length: usize = bytes[at + 2] as usize + bytes[at + 3] as usize * 0x100;
            if length < HEADER_LENGTH || length > bytes.len() - at {
                return None;
            }
            let node_type: u8 = bytes[at];
            let sub_type: u8 = bytes[at + 1];
            let mut data: Vec<u8> = Vec::new();
            let mut k: usize = HEADER_LENGTH;
            while k < length
                invariant
                    HEADER_LENGTH <= k <= length,
                    at + length <= bytes.len(),
                    rest == bytes@.skip(at as int),
                    data@ == rest.subrange(HEADER_LENGTH as int, k as int),
                decreases length - k,
            {
                data.push(bytes[at + k]);
                k += 1;
            }
            let ghost before = nodes@;
            let node = match DevicePathNode::new(node_type, sub_type, data) {
                Some(node) => node,
                None => { return None; },
            };
            assert(node@ =~= first_node(rest));
            nodes.push(node);
            proof {
                assert(views(nodes@) =~= views(before).push(first_node(rest)));
                assert(rest.skip(length as int) =~= bytes@.skip(at + length));
            }
            if node_type == TYPE_END && sub_type == END_ENTIRE {
                proof {
                    assert(views(before) + seq![first_node(rest)] =~= views(nodes@));
                    encode_inverts_decode(bytes@);
                }
                return Some(DevicePathBuf { nodes });
            }
            at += length;
            proof {
                let next = bytes@.skip(at as int);
                if decoded(next) is Some {
                    assert(views(before) + (seq![first_node(rest)] + decoded(next)->0)
                        =~= views(nodes@) + decoded(next)->0);
                }
            }
        }
    }

    /// The path as it lies in memory.
    pub fn to_bytes(&self) -> (bytes: Vec<u8>)
        ensures
            bytes@ == encoded(self@),
    {
        let mut bytes: Vec<u8> = Vec::new();
        let mut i: usize = 0;
        assert(self@.skip(0) =~= self@);
        while i < self.nodes.len()
            invariant
                i <= self.nodes@.len(),
                encoded(self@) == bytes@ + encoded(self@.skip(i as int)),
            decreases self.nodes@.len() - i,
        {
            let ghost before = bytes@;
            self.nodes[i].encode_into(&mut bytes);
            proof {
                assert(self@.skip(i as int).drop_first() =~= self@.skip(i + 1));
                assert(before + (self@[i as int].encoded() + encoded(self@.skip(i + 1)))
                    =~= bytes@ + encoded(self@.skip(i + 1)));
            }
            i += 1;
        }
        bytes
    }

    /// Number of nodes of the path, its end among them.
    pub fn node_count(&self) -> (count: usize)
        ensures
            count == self@.len(),
    {
        self.nodes.len()
    }

    /// The node at `index`.
    pub fn node(&self, index: usize) -> (node: &DevicePathNode)
        requires
            index < self@.len(),
        ensures
            node@ == self@[index as int],
    {
        &self.nodes[index]
    }

    /// Copies of the first `count` nodes.
    pub fn first_nodes(&self, count: usize) -> (nodes: Vec<DevicePathNode>)
        requires
            count <= self@.len(),
        ensures
            views(nodes@) == self@.take(count as int),
    {
        clone_nodes(&self.nodes, count)
    }

    /// Goes on with `next` where this path ends.
    pub fn append_device_path(&mut self, next: &DevicePathBuf)
        ensures
            final(self)@ == joined(old(self)@, next@),
    {
        proof {
            use_type_invariant(&*self);
            use_type_invariant(next);
        }
        let nodes = clone_nodes(&self.nodes, self.nodes.len() - 1);
        let nodes = with_copies(nodes, &next.nodes);
        proof {
            assert(views(nodes@) =~= joined(self@, next@));
            joined_is_device_path(self@, next@);
        }
        *self = DevicePathBuf { nodes };
    }

    /// Adds the instances of `next` behind those of this path.
    pub fn append_device_path_instances(&mut self, next: &DevicePathBuf)
        ensures
            final(self)@ == with_instances(old(self)@, next@),
    {
        proof {
            use_type_invariant(&*self);
            use_type_invariant(next);
        }
        let mut nodes = clone_nodes(&self.nodes, self.nodes.len() - 1);
        let ghost before = nodes@;
        nodes.push(DevicePathNode::end_instance());
        assert(views(nodes@) =~= views(before).push(node::end_instance()));
        let nodes = with_copies(nodes, &next.nodes);
        proof {
            assert(views(nodes@) =~= with_instances(self@, next@));
            with_instances_is_device_path(self@, next@);
        }
        *self = DevicePathBuf { nodes };
    }
}

/// `nodes` with copies of `more` behind them.
fn with_copies(nodes: Vec<DevicePathNode>, more: &Vec<DevicePathNode>) -> (all: Vec<DevicePathNode>)
    ensures
        views(all@) == views(nodes@) + views(more@),
{
    let mut all = nodes;
    let mut i: usize = 0;
    while i < more.len()
        invariant
            i <= more@.len(),
            views(all@) == views(nodes@) + views(more@).take(i as int),
        decreases more@.len() - i,
    {
        let ghost before = all@;
        let copy = more[i].clone();
        all.push(copy);
        i += 1;
        assert(views(all@) =~= views(before).push(views(more@)[i - 1]));
        assert(views(more@).take(i as int) =~= views(more@).take(i - 1).push(views(more@)[i - 1]));
    }
    assert(views(more@).take(i as int) =~= views(more@));
    all
}

/// Nodes none of which ends a whole path make the path that has just these nodes and an end.
pub proof fn lemma_terminated_keeps(nodes: Seq<NodeView>)
    requires
        forall|i: int| 0 <= i < nodes.len() ==> !(#[trigger] nodes[i]).is_end_entire(),
    ensures
        terminated(nodes) == nodes.push(node::end_entire()),
    decreases nodes.len(),
{
    if nodes.len() > 0 {
        let tail = nodes.drop_first();
        assert forall|i: int| 0 <= i < tail.len() implies !(#[trigger] tail[i]).is_end_entire() by {
            assert(!nodes[i + 1].is_end_entire());
        }
        lemma_terminated_keeps(tail);
    }
    assert(terminated(nodes) =~= nodes.push(node::end_entire()));
}

/// Joining two device paths gives a device path.
pub proof fn joined_is_device_path(path: Seq<NodeView>, next: Seq<NodeView>)
    requires
        is_device_path(path),
        is_device_path(next),
    ensures
        is_device_path(joined(path, next)),
{
    let all = joined(path, next);
    let start = path.len() - 1;
    assert forall|i: int| 0 <= i < all.len() implies (#[trigger] all[i]).fits() by {
        assert(all[i] == if i < start { path[i] } else { next[i - start] });
    }
    assert forall|i: int| 0 <= i < all.len() - 1 implies !(#[trigger] all[i]).is_end_entire() by {
        assert(all[i] == if i < start { path[i] } else { next[i - start] });
    }
}

/// Adding the instances of one device path to another gives a device path.
pub proof fn with_instances_is_device_path(path: Seq<NodeView>, next: Seq<NodeView>)
    requires
        is_device_path(path),
        is_device_path(next),
    ensures
        is_device_path(with_instances(path, next)),
{
    let all = with_instances(path, next);
    let start = path.len() as int;
    assert forall|i: int| 0 <= i < all.len() implies (#[trigger] all[i]).fits() && (i < all.len() - 1
        ==> !all[i].is_end_entire()) by {
        assert(all[i] == if i < start - 1 {
            path[i]
        } else if i < start {
            node::end_instance()
        } else {
            next[i - start]
        });
    }
}

/// Reading back what was written gives the same path, whatever bytes follow it in memory.
pub proof fn decode_inverts_encode(path: Seq<NodeView>, rest: Seq<u8>)
    requires
        is_device_path(path),
    ensures
        decoded(encoded(path) + rest) == Some(path),
    decreases path.len(),
{
    let bytes = encoded(path) + rest;
    let node = path[0];
    let tail = path.drop_first();
    assert(node.fits());
    let length = node.data.len() + HEADER_LENGTH;
    assert(bytes =~= node.encoded() + (encoded(tail) + rest));
    assert(bytes[2] == (length % 0x100) as u8);
    assert(bytes[3] == (length / 0x100) as u8);
    assert(header_length(bytes) == length);
    assert(first_node(bytes) =~= node);
    if path.len() == 1 {
        assert(path =~= seq![node]);
    } else {
        assert(bytes.skip(length as int) =~= encoded(tail) + rest);
        assert forall|i: int| 0 <= i < tail.len() implies (#[trigger] tail[i]).fits() by {
            assert(path[i + 1].fits());
        }
        assert forall|i: int| 0 <= i < tail.len() - 1 implies !(
        #[trigger] tail[i]).is_end_entire() by {
            assert(!path[i + 1].is_end_entire());
        }
        decode_inverts_encode(tail, rest);
        assert(seq![node] + tail =~= path);
    }
}

/// Whatever is read is a device path, and it is written back as the bytes that it was read from.
pub proof fn encode_inverts_decode(bytes: Seq<u8>)
    requires
        decoded(bytes) is Some,
    ensures
        is_device_path(decoded(bytes)->0),
        encoded(decoded(bytes)->0).is_prefix_of(bytes),
    decreases bytes.len(),
{
    let path = decoded(bytes)->0;
    let node = first_node(bytes);
    let length = header_length(bytes);
    assert(node.data.len() + HEADER_LENGTH == length);
    assert((length % 0x100) as u8 == bytes[2]);
    assert((length / 0x100) as u8 == bytes[3]);
    assert(node.encoded() =~= bytes.take(length));
    if node.is_end_entire() {
        assert(encoded(path.drop_first()) =~= Seq::empty());
        assert(encoded(path) =~= node.encoded());
    } else {
        let rest = bytes.skip(length);
        encode_inverts_decode(rest);
        assert(path.drop_first() =~= decoded(rest)->0);
        assert(path.last() == (decoded(rest)->0).last());
        assert forall|i: int| 0 <= i < path.len() implies (#[trigger] path[i]).fits() by {
            if i > 0 {
                assert(path[i] == (decoded(rest)->0)[i - 1]);
            }
        }
        assert forall|i: int| 0 <= i < path.len() - 1 implies !(
        #[trigger] path[i]).is_end_entire() by {
            if i > 0 {
                assert(path[i] == (decoded(rest)->0)[i - 1]);
            }
        }
        assert(encoded(path) == node.encoded() + encoded(decoded(rest)->0));
        assert forall|i: int| 0 <= i < encoded(path).len() implies encoded(path)[i] == bytes[i] by {
            if i >= length {
                assert(encoded(decoded(rest)->0)[i - length] == rest[i - length]);
            }
        }
    }
}

/// Reading what is missing, step by step, reads a path that lies in memory and nothing behind it:
/// as long as a part of the path was not read, some of it is missing, and never more than is left.
pub proof fn reading_ends_with_the_path(path: Seq<NodeView>, read: int)
    requires
        is_device_path(path),
        0 <= read <= encoded(path).len(),
    ensures
        missing(encoded(path).take(read)) <= encoded(path).len() - read,
        missing(encoded(path).take(read)) == 0 <==> read == encoded(path).len(),
    decreases path.len(),
{
    let node = path[0];
    let tail = path.drop_first();
    let length = node.data.len() + HEADER_LENGTH;
    let bytes = encoded(path).take(read);
    assert(node.fits());
    assert(encoded(path) =~= node.encoded() + encoded(tail));
    if path.len() == 1 {
        assert(encoded(tail) =~= Seq::empty());
    } else {
        assert forall|i: int| 0 <= i < tail.len() implies (#[trigger] tail[i]).fits() by {
            assert(path[i + 1].fits());
        }
        assert forall|i: int| 0 <= i < tail.len() - 1 implies !(
        #[trigger] tail[i]).is_end_entire() by {
            assert(!path[i + 1].is_end_entire());
        }
    }
    if read >= HEADER_LENGTH {
        assert(bytes[2] == (length % 0x100) as u8);
        assert(bytes[3] == (length / 0x100) as u8);
        assert(header_length(bytes) == length);
        if read >= length {
            assert(first_node(bytes) =~= node);
            if path.len() > 1 {
                assert(bytes.skip(length as int) =~= encoded(tail).take(read - length));
                reading_ends_with_the_path(tail, read - length);
            }
        } else {
            assert(encoded(path).len() >= length);
        }
    }
}

} // verus!
