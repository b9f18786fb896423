//! Nodes of a device path.
use vstd::prelude::*;

verus! {

/// Type of the nodes that name a piece of hardware.
pub const TYPE_HARDWARE: u8 = 0x01;

/// Type of the nodes that name a device through ACPI.
pub const TYPE_ACPI: u8 = 0x02;

/// Type of the nodes that name a part of a medium.
pub const TYPE_MEDIA: u8 = 0x04;

/// Type of the nodes that end a path or an instance of it.
pub const TYPE_END: u8 = 0x7f;

/// Media subtype of a hard drive partition.
pub const MEDIA_HARD_DRIVE: u8 = 0x01;

/// End subtype between two instances of a multi-instance path.
pub const END_INSTANCE: u8 = 0x01;

/// End subtype of the last node of a path.
pub const END_ENTIRE: u8 = 0xff;

/// Bytes that a node spends on its type, its subtype and its length.
pub const HEADER_LENGTH: usize = 4;

/// The most bytes of data whose node still has a length that fits the header's two bytes.
pub const MAX_DATA_LENGTH: usize = 0xfffb;

/// What a node says: its type, its subtype and the data behind the header.
#[verifier::ext_equal]
pub struct NodeView {
    pub node_type: u8,
    pub sub_type: u8,
    pub data: Seq<u8>,
}

impl NodeView {
    /// The node's length fits the two bytes that the header has for it.
    pub open spec fn fits(self) -> bool {
        self.data.len() <= MAX_DATA_LENGTH
    }

    /// The node ends a path or an instance.
    pub open spec fn is_end(self) -> bool {
        self.node_type == TYPE_END
    }

    /// The node ends the whole path.
    pub open spec fn is_end_entire(self) -> bool {
        self.node_type == TYPE_END && self.sub_type == END_ENTIRE
    }

    /// The node describes a hard drive partition: the partition's number (4 bytes), start and
    /// size (8 bytes each), signature (16 bytes), format and kind of signature (1 byte each).
    pub open spec fn is_hard_drive(self) -> bool {
        self.node_type == TYPE_MEDIA && self.sub_type == MEDIA_HARD_DRIVE && self.data.len() >= 38
    }

    /// Signature of the partition that a hard drive node describes.
    pub open spec fn partition_signature(self) -> Seq<u8> {
        self.data.subrange(20, 36)
    }

    /// Kind of the signature in a hard drive node.
    pub open spec fn signature_type(self) -> u8 {
        self.data[37]
    }

    /// Both nodes describe a hard drive partition, and it is the same one.
    pub open spec fn same_partition(self, other: NodeView) -> bool {
        &&& self.is_hard_drive()
        &&& other.is_hard_drive()
        &&& self.partition_signature() == other.partition_signature()
        &&& self.signature_type() == other.signature_type()
    }

    /// The node as it lies in memory: type, subtype, length in two bytes (the low one first) and
    /// data. The length counts the header too.
    pub open spec fn encoded(self) -> Seq<u8> {
        let length = self.data.len() + HEADER_LENGTH;
        seq![self.node_type, self.sub_type, (length % 0x100) as u8, (length / 0x100) as u8]
            + self.data
    }
}

/// The node that ends a whole path.
pub open spec fn end_entire() -> NodeView {
    NodeView { node_type: TYPE_END, sub_type: END_ENTIRE, data: Seq::empty() }
}

/// The node between two instances of a multi-instance path.
pub open spec fn end_instance() -> NodeView {
    NodeView { node_type: TYPE_END, sub_type: END_INSTANCE, data: Seq::empty() }
}

/// A node of a device path.
#[derive(Debug, PartialEq, Eq)]
pub struct DevicePathNode {
    node_type: u8,
    sub_type: u8,
    data: Vec<u8>,
}

impl View for DevicePathNode {
    type V = NodeView;

    closed spec fn view(&self) -> NodeView {
        NodeView { node_type: self.node_type, sub_type: self.sub_type, data: self.data@ }
    }
}

impl Clone for DevicePathNode {
    fn clone(&self) -> (copy: Self)
        ensures
            copy@ == self@,
    {
        proof {
            use_type_invariant(self);
        }
        let data = self.data.clone();
        assert(data@ =~= self.data@);
        DevicePathNode { node_type: self.node_type, sub_type: self.sub_type, data }
    }
}

impl DevicePathNode {
    /// Every node fits its header.
    #[verifier::type_invariant]
    pub open spec fn wf(&self) -> bool {
        self@.fits()
    }

    /// A node of the given type and subtype, or `None` where the data is too long for a node.
    pub fn new(node_type: u8, sub_type: u8, data: Vec<u8>) -> (node: Option<Self>)
        ensures
            node is Some <==> data@.len() <= MAX_DATA_LENGTH,
            node matches Some(n) ==> n@ == (NodeView { node_type, sub_type, data: data@ }),
    {
        if data.len() <= MAX_DATA_LENGTH {
            Some(DevicePathNode { node_type, sub_type, data })
        } else {
            None
        }
    }

    /// The node that ends a whole path.
    pub fn end_entire() -> (node: Self)
        ensures
            node@ == end_entire(),
    {
        DevicePathNode { node_type: TYPE_END, sub_type: END_ENTIRE, data: Vec::new() }
    }

    /// The node between two instances of a multi-instance path.
    pub fn end_instance() -> (node: Self)
        ensures
            node@ == end_instance(),
    {
        DevicePathNode { node_type: TYPE_END, sub_type: END_INSTANCE, data: Vec::new() }
    }

    /// The node's type.
    pub fn node_type(&self) -> (node_type: u8)
        ensures
            node_type == self@.node_type,
    {
        self.node_type
    }

    /// The node's subtype.
    pub fn sub_type(&self) -> (sub_type: u8)
        ensures
            sub_type == self@.sub_type,
    {
        self.sub_type
    }

    /// The data behind the node's header.
    pub fn data(&self) -> (data: &Vec<u8>)
        ensures
            data@ == self@.data,
    {
        &self.data
    }

    /// Appends the node to `bytes` as it lies in memory.
    pub fn encode_into(&self, bytes: &mut Vec<u8>)
        ensures
            final(bytes)@ == old(bytes)@ + self@.encoded(),
    {
        proof {
            use_type_invariant(self);
        }
        let length: usize = self.data.len() + HEADER_LENGTH;
        bytes.push(self.node_type);
        bytes.push(self.sub_type);
        bytes.push((length % 0x100) as u8);
        bytes.push((length / 0x100) as u8);
        let ghost header = bytes@;
        let mut i: usize = 0;
        while i < self.data.len()
            invariant
                i <= self.data.len(),
                bytes@ == header + self.data@.take(i as int),
            decreases self.data.len() - i,
        {
            bytes.push(self.data[i]);
            i += 1;
        }
    }
}

/// What identifies the partition that a hard drive node describes.
#[derive(Debug, PartialEq, Eq)]
pub struct HardDrive {
    /// Signature of the partition.
    pub partition_signature: Vec<u8>,
    /// Kind of the signature.
    pub signature_type: u8,
}

impl HardDrive {
    /// Reads a hard drive node. `None` where the node is of another kind, or too short for one.
    pub fn try_from_node(node: &DevicePathNode) -> (drive: Option<Self>)
        ensures
            drive is Some <==> node@.is_hard_drive(),
            drive matches Some(d) ==> d.describes(node@),
    {
        if node.node_type() != TYPE_MEDIA || node.sub_type() != MEDIA_HARD_DRIVE {
            return None;
        }
        let data = node.data();
        if data.len() < 38 {
            return None;
        }
        let mut partition_signature: Vec<u8> = Vec::new();
        let mut i: usize = 20;
        while i < 36
            invariant
                20 <= i <= 36,
                data@.len() >= 38,
                partition_signature@ == data@.subrange(20, i as int),
            decreases 36 - i,
        {
            partition_signature.push(data[i]);
            i += 1;
        }
        Some(HardDrive { partition_signature, signature_type: data[37] })
    }

    /// The drive holds what the node says of the partition.
    pub open spec fn describes(&self, node: NodeView) -> bool {
        &&& node.is_hard_drive()
        &&& self.partition_signature@ == node.partition_signature()
        &&& self.signature_type == node.signature_type()
    }

    /// Whether two drives have the same signature of the same kind.
    pub fn same_partition(&self, other: &HardDrive) -> (same: bool)
        ensures
            same == (self.partition_signature@ == other.partition_signature@
                && self.signature_type == other.signature_type),
    {
        if self.signature_type != other.signature_type {
            return false;
        }
        if self.partition_signature.len() != other.partition_signature.len() {
            return false;
        }
        let mut i: usize = 0;
        while i < self.partition_signature.len()
            invariant
                i <= self.partition_signature.len(),
                self.partition_signature.len() == other.partition_signature.len(),
                forall|k: int|
                    0 <= k < i ==> self.partition_signature@[k] == other.partition_signature@[k],
            decreases self.partition_signature.len() - i,
        {
            if self.partition_signature[i] != other.partition_signature[i] {
                return false;
            }
            i += 1;
        }
        assert(self.partition_signature@ =~= other.partition_signature@);
        true
    }
}

} // verus!
