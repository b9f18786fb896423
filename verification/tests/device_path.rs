use patina_boot::device_path::path::missing_bytes;
use patina_boot::device_path::{DevicePathBuf, DevicePathNode, HardDrive};

fn node(node_type: u8, sub_type: u8, data: &[u8]) -> DevicePathNode {
    DevicePathNode::new(node_type, sub_type, data.to_vec()).unwrap()
}

#[test]
fn nodes_are_written_with_their_length() {
    let path = DevicePathBuf::from_nodes(vec![node(0x01, 0x01, &[2, 3]), node(0x03, 0x05, &[])]);
    assert_eq!(
        path.to_bytes(),
        [0x01, 0x01, 0x06, 0x00, 2, 3, 0x03, 0x05, 0x04, 0x00, 0x7f, 0xff, 0x04, 0x00]
    );
    let mut long = Vec::new();
    node(0x04, 0x04, &[0xee; 0x1ff]).encode_into(&mut long);
    assert_eq!(long[..4], [0x04, 0x04, 0x03, 0x02]);
    assert_eq!(long.len(), 0x203);
}

#[test]
fn nodes_that_are_too_long_are_refused() {
    assert!(DevicePathNode::new(0x04, 0x04, vec![0; 0xfffb]).is_some());
    assert!(DevicePathNode::new(0x04, 0x04, vec![0; 0xfffc]).is_none());
}

#[test]
fn what_is_written_reads_back() {
    let path = DevicePathBuf::from_nodes(vec![
        node(0x02, 0x01, &[0xd0, 0x41, 0x03, 0x0a, 0, 0, 0, 0]),
        node(0x01, 0x01, &[0, 0x1d]),
    ]);
    let mut bytes = path.to_bytes();
    assert_eq!(DevicePathBuf::try_from_bytes(&bytes), Some(path.clone()));
    bytes.extend_from_slice(&[9; 40]);
    assert_eq!(DevicePathBuf::try_from_bytes(&bytes), Some(path));
}

#[test]
fn malformed_bytes_are_no_path() {
    let cases: [&[u8]; 6] = [
        &[],
        &[0x7f, 0xff, 0x04],
        &[0x01, 0x01, 0x06, 0x00, 0, 1],
        &[0x01, 0x01, 0x03, 0x00, 0x7f, 0xff, 0x04, 0x00],
        &[0x01, 0x01, 0x09, 0x00, 0x7f, 0xff, 0x04, 0x00],
        &[0x01, 0x01, 0x00, 0x00],
    ];
    for bytes in cases {
        assert_eq!(DevicePathBuf::try_from_bytes(&bytes.to_vec()), None);
    }
}

#[test]
fn a_path_ends_at_the_first_end() {
    let path = DevicePathBuf::from_nodes(vec![
        node(0x01, 0x01, &[0, 1]),
        DevicePathNode::end_entire(),
        node(0x01, 0x01, &[0, 2]),
    ]);
    assert_eq!(path.node_count(), 2);
    assert_eq!(path.node(0).data(), &vec![0, 1]);
    assert_eq!((path.node(1).node_type(), path.node(1).sub_type()), (0x7f, 0xff));
    assert_eq!(DevicePathBuf::from_nodes(Vec::new()).to_bytes(), [0x7f, 0xff, 0x04, 0x00]);
}

#[test]
fn paths_and_instances_are_appended() {
    let first = DevicePathBuf::from_nodes(vec![node(0x01, 0x01, &[0, 1])]);
    let second = DevicePathBuf::from_nodes(vec![node(0x01, 0x01, &[0, 2])]);
    let mut joined = first.clone();
    joined.append_device_path(&second);
    assert_eq!(
        joined,
        DevicePathBuf::from_nodes(vec![node(0x01, 0x01, &[0, 1]), node(0x01, 0x01, &[0, 2])])
    );
    let mut instances = first;
    instances.append_device_path_instances(&second);
    assert_eq!(
        instances,
        DevicePathBuf::from_nodes(vec![
            node(0x01, 0x01, &[0, 1]),
            DevicePathNode::end_instance(),
            node(0x01, 0x01, &[0, 2]),
        ])
    );
    assert_eq!(instances.first_nodes(1), vec![node(0x01, 0x01, &[0, 1])]);
}

#[test]
fn hard_drive_nodes_name_their_partition() {
    let mut data: Vec<u8> = (0..38).collect();
    let drive = HardDrive::try_from_node(&node(0x04, 0x01, &data)).unwrap();
    assert_eq!(drive.partition_signature, (20..36).collect::<Vec<u8>>());
    assert_eq!(drive.signature_type, 37);

    // Number, place and format of a partition do not name it.
    data[..20].fill(0xff);
    data[36] = 0xff;
    let same = HardDrive::try_from_node(&node(0x04, 0x01, &data)).unwrap();
    assert!(same.same_partition(&drive));
    data[37] = 1;
    let other_type = HardDrive::try_from_node(&node(0x04, 0x01, &data)).unwrap();
    assert!(!other_type.same_partition(&drive));
    data[37] = 37;
    data[35] = 0;
    let other_signature = HardDrive::try_from_node(&node(0x04, 0x01, &data)).unwrap();
    assert!(!other_signature.same_partition(&drive));

    assert!(HardDrive::try_from_node(&node(0x04, 0x01, &data[..37])).is_none());
    assert!(HardDrive::try_from_node(&node(0x04, 0x02, &data)).is_none());
    assert!(HardDrive::try_from_node(&node(0x03, 0x01, &data)).is_none());
}

#[test]
fn reading_takes_the_path_and_nothing_behind_it() {
    let path = DevicePathBuf::from_nodes(vec![
        node(0x01, 0x01, &[0, 1]),
        node(0x04, 0x04, &[0xee; 0x1ff]),
    ]);
    let mut memory = path.to_bytes();
    let length = memory.len();
    memory.extend_from_slice(&[0x55; 16]);

    let mut bytes = Vec::new();
    let mut steps = Vec::new();
    loop {
        let count = missing_bytes(&bytes);
        if count == 0 {
            break;
        }
        steps.push(count);
        bytes.extend_from_slice(&memory[bytes.len()..bytes.len() + count]);
    }
    assert_eq!(steps, [4, 2, 4, 0x1ff, 4]);
    assert_eq!(bytes.len(), length);
    assert_eq!(DevicePathBuf::try_from_bytes(&bytes), Some(path));
}

#[test]
fn reading_stops_at_a_malformed_header() {
    let bytes = vec![0x01, 0x01, 0x03, 0x00];
    assert_eq!(missing_bytes(&bytes), 0);
    assert_eq!(DevicePathBuf::try_from_bytes(&bytes), None);
    assert_eq!(missing_bytes(&vec![0x01, 0x01, 0x05]), 1);
}
