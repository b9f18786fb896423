use std::cell::RefCell;
use std::rc::Rc;

use patina_boot::component::ConsoleDiscovery;
use patina_boot::device_path::{DevicePathBuf, DevicePathNode};
use patina_boot::error::{EfiError, Status};
use patina_boot::firmware::{
    BootServices, Event, Firmware, Handle, HandleSearch, InputKey, Interface, Log,
    RuntimeServices,
};
use patina_boot::guid::Guid;
use patina_boot::helpers::{
    boot_from_device_path, boot_from_each, build_multi_instance_device_path, check_hotkey,
    connect_all, detect_hotkey, detect_hotkey_from_handles, discover_console_devices,
    expand_device_path, is_partial_device_path, keeps_reading, signal_bds_phase_entry,
    signal_ready_to_boot,
};
use patina_boot::partition::nvme_pass_thru::{CommandPacket, Completion};
use r_efi::efi;

type Calls = Rc<RefCell<Vec<String>>>;

/// Boot services that note each call and reply as a test says. A call that no reply was set for
/// fails the test.
struct MockBootServices {
    calls: Calls,
    handles: Box<dyn FnMut(HandleSearch) -> Result<Vec<Handle>, Status>>,
    connect: Box<dyn FnMut(Handle) -> Result<(), Status>>,
    path: Box<dyn FnMut(Handle) -> Result<Vec<u8>, Status>>,
    keys: Box<dyn FnMut(Handle) -> Result<Vec<InputKey>, Status>>,
    interface: Box<dyn FnMut(Handle, Guid) -> Result<Interface, Status>>,
    closest: Box<dyn FnMut(Guid) -> Result<Handle, Status>>,
    pass_thru: Box<dyn FnMut(Interface, u32, CommandPacket) -> (Status, Completion)>,
    load: Box<dyn FnMut(Handle, &DevicePathBuf) -> Result<Handle, Status>>,
    start: Box<dyn FnMut(Handle) -> Result<(), Status>>,
    watchdog: Box<dyn FnMut(usize) -> Result<(), Status>>,
    create: Box<dyn FnMut(Guid) -> Result<Event, Status>>,
    signal: Box<dyn FnMut(Event) -> Result<(), Status>>,
    close: Box<dyn FnMut(Event) -> Result<(), Status>>,
    install: Box<dyn FnMut(Guid, Interface) -> Result<Handle, Status>>,
}

impl MockBootServices {
    fn new() -> Self {
        MockBootServices {
            calls: Rc::new(RefCell::new(Vec::new())),
            handles: Box::new(|_| panic!("locate_handle_buffer")),
            connect: Box::new(|_| panic!("connect_controller")),
            path: Box::new(|_| panic!("device_path")),
            keys: Box::new(|_| panic!("read_key_strokes")),
            interface: Box::new(|_, _| panic!("handle_protocol")),
            closest: Box::new(|_| panic!("locate_device_path")),
            pass_thru: Box::new(|_, _, _| panic!("nvme_pass_thru")),
            load: Box::new(|_, _| panic!("load_image")),
            start: Box::new(|_| panic!("start_image")),
            watchdog: Box::new(|_| panic!("set_watchdog_timer")),
            create: Box::new(|_| panic!("create_event_ex")),
            signal: Box::new(|_| panic!("signal_event")),
            close: Box::new(|_| panic!("close_event")),
            install: Box::new(|_, _| panic!("install_protocol_interface")),
        }
    }

    fn note(&self, call: String) {
        self.calls.borrow_mut().push(call);
    }
}

impl BootServices for MockBootServices {
    fn called(&self) -> Log {
        unreachable!()
    }

    fn locate_handle_buffer(&mut self, search: HandleSearch) -> Result<Vec<Handle>, Status> {
        self.note(match search {
            HandleSearch::AllHandles => format!("locate all"),
            HandleSearch::ByProtocol(protocol) => format!("locate {}", name_of(protocol)),
        });
        (self.handles)(search)
    }

    fn connect_controller(
        &mut self,
        controller: Handle,
        drivers: Vec<Handle>,
        remaining_path: Option<DevicePathBuf>,
        recursive: bool,
    ) -> Result<(), Status> {
        assert!(drivers.is_empty() && remaining_path.is_none() && recursive);
        self.note(format!("connect {controller}"));
        (self.connect)(controller)
    }

    fn device_path(&mut self, handle: Handle) -> Result<Vec<u8>, Status> {
        self.note(format!("path {handle}"));
        (self.path)(handle)
    }

    fn read_key_strokes(&mut self, handle: Handle) -> Result<Vec<InputKey>, Status> {
        self.note(format!("keys {handle}"));
        (self.keys)(handle)
    }

    fn handle_protocol(&mut self, handle: Handle, protocol: Guid) -> Result<Interface, Status> {
        self.note(format!("interface {handle} {}", name_of(protocol)));
        (self.interface)(handle, protocol)
    }

    fn locate_device_path(&mut self, protocol: Guid, path: &DevicePathBuf) -> Result<Handle, Status> {
        self.note(format!("closest {} {}", name_of(protocol), path.node_count()));
        (self.closest)(protocol)
    }

    fn nvme_pass_thru(
        &mut self,
        protocol: Interface,
        namespace_id: u32,
        packet: CommandPacket,
    ) -> (Status, Completion) {
        self.note(format!("pass-thru {protocol} {namespace_id}"));
        (self.pass_thru)(protocol, namespace_id, packet)
    }

    fn load_image(
        &mut self,
        boot_policy: bool,
        parent: Handle,
        path: &DevicePathBuf,
    ) -> Result<Handle, Status> {
        assert!(boot_policy);
        self.note(format!("load {parent} {}", path.node_count()));
        (self.load)(parent, path)
    }

    fn start_image(&mut self, image: Handle) -> Result<(), Status> {
        self.note(format!("start {image}"));
        (self.start)(image)
    }

    fn set_watchdog_timer(&mut self, seconds: usize) -> Result<(), Status> {
        self.note(format!("watchdog {seconds}"));
        (self.watchdog)(seconds)
    }

    fn create_event_ex(
        &mut self,
        event_type: u32,
        notify_tpl: usize,
        group: Guid,
    ) -> Result<Event, Status> {
        assert_eq!(event_type, 0x200);
        assert_eq!(notify_tpl, 8);
        self.note(format!("create {}", name_of(group)));
        (self.create)(group)
    }

    fn signal_event(&mut self, event: Event) -> Result<(), Status> {
        self.note(format!("signal {event}"));
        (self.signal)(event)
    }

    fn close_event(&mut self, event: Event) -> Result<(), Status> {
        self.note(format!("close {event}"));
        (self.close)(event)
    }

    fn install_protocol_interface(
        &mut self,
        handle: Option<Handle>,
        protocol: Guid,
        interface: Interface,
    ) -> Result<Handle, Status> {
        assert!(handle.is_none());
        self.note(format!("install {} {interface}", name_of(protocol)));
        (self.install)(protocol, interface)
    }
}

fn name_of(guid: Guid) -> &'static str {
    if guid == Guid::simple_text_input() {
        "text-input"
    } else if guid == Guid::simple_text_output() {
        "text-output"
    } else if guid == Guid::graphics_output() {
        "graphics-output"
    } else if guid == Guid::device_path() {
        "device-path"
    } else if guid == Guid::nvme_pass_thru() {
        "nvme-pass-thru"
    } else if guid == Guid::end_of_dxe() {
        "end-of-dxe"
    } else if guid == Guid::ready_to_boot() {
        "ready-to-boot"
    } else if guid == Guid::bds() {
        "bds"
    } else {
        panic!("unexpected GUID {guid:?}")
    }
}

fn status(status: efi::Status) -> Status {
    status.as_usize()
}

/// The path made of nodes given by type, sub-type and data.
fn path_of(nodes: &[(u8, u8, Vec<u8>)]) -> DevicePathBuf {
    let nodes = nodes
        .iter()
        .map(|(node_type, sub_type, data)| {
            DevicePathNode::new(*node_type, *sub_type, data.clone()).unwrap()
        })
        .collect();
    DevicePathBuf::from_nodes(nodes)
}

/// An ACPI node for a PCI root bridge.
fn pci_root() -> (u8, u8, Vec<u8>) {
    (0x02, 0x01, vec![0xd0, 0x41, 0x03, 0x0a, 0, 0, 0, 0])
}

fn pci(function: u8, device: u8) -> (u8, u8, Vec<u8>) {
    (0x01, 0x01, vec![function, device])
}

/// A node for a partition of a GPT disk.
fn hard_drive(number: u32, start: u64, size: u64, guid: [u8; 16]) -> (u8, u8, Vec<u8>) {
    let mut data = Vec::new();
    data.extend_from_slice(&number.to_le_bytes());
    data.extend_from_slice(&start.to_le_bytes());
    data.extend_from_slice(&size.to_le_bytes());
    data.extend_from_slice(&guid);
    data.push(0x02);
    data.push(0x02);
    (0x04, 0x01, data)
}

fn file_path(path: &str) -> (u8, u8, Vec<u8>) {
    let mut data = Vec::new();
    for unit in path.encode_utf16() {
        data.extend_from_slice(&unit.to_le_bytes());
    }
    data.extend_from_slice(&[0, 0]);
    (0x04, 0x04, data)
}

fn create_test_device_path() -> DevicePathBuf {
    path_of(&[pci_root()])
}

const PARENT: Handle = 1;

/// Runtime services that note each variable that is written, and reply the same to every call.
struct MockRuntimeServices {
    variables: Vec<(String, Guid, u32, Vec<u8>)>,
    reply: Result<(), Status>,
}

impl RuntimeServices for MockRuntimeServices {
    fn written(&self) -> Log {
        unreachable!()
    }

    fn set_variable(
        &mut self,
        name: &Vec<u16>,
        namespace: Guid,
        attributes: u32,
        data: &Vec<u8>,
    ) -> Result<(), Status> {
        let name = String::from_utf16(name).unwrap();
        self.variables.push((name, namespace, attributes, data.clone()));
        self.reply
    }
}

#[test]
fn test_boot_from_device_path_success() {
    let device_path = create_test_device_path();
    let mut mock = MockBootServices::new();
    mock.load = Box::new(|_, _| Ok(0));
    mock.watchdog = Box::new(|_| Ok(()));
    mock.start = Box::new(|_| Ok(()));
    let calls = mock.calls.clone();

    let result = boot_from_device_path(&mut Firmware::new(mock), PARENT, &device_path);
    assert!(result.is_ok());
    assert_eq!(*calls.borrow(), ["load 1 2", "watchdog 300", "start 0", "watchdog 0"]);
}

#[test]
fn test_boot_from_device_path_load_failure() {
    let device_path = create_test_device_path();
    let mut mock = MockBootServices::new();
    mock.load = Box::new(|_, _| Err(status(efi::Status::NOT_FOUND)));

    let result = boot_from_device_path(&mut Firmware::new(mock), PARENT, &device_path);
    assert!(result.is_err());
    assert_eq!(result, Err(EfiError::NotFound));
}

#[test]
fn test_boot_from_device_path_start_failure() {
    let device_path = create_test_device_path();
    let mut mock = MockBootServices::new();
    mock.load = Box::new(|_, _| Ok(0));
    mock.watchdog = Box::new(|_| Ok(()));
    mock.start = Box::new(|_| Err(status(efi::Status::LOAD_ERROR)));

    let result = boot_from_device_path(&mut Firmware::new(mock), PARENT, &device_path);
    assert!(result.is_err());
    assert_eq!(result, Err(EfiError::LoadError));
}

#[test]
fn test_boot_from_device_path_watchdog_disabled_on_failure() {
    let device_path = create_test_device_path();
    let mut mock = MockBootServices::new();
    let disabled = Rc::new(RefCell::new(0));
    let counter = disabled.clone();
    mock.load = Box::new(|_, _| Ok(0));
    mock.watchdog = Box::new(move |timeout| {
        if timeout == 0 {
            *counter.borrow_mut() += 1;
        }
        Ok(())
    });
    mock.start = Box::new(|_| Err(status(efi::Status::ABORTED)));

    let _ = boot_from_device_path(&mut Firmware::new(mock), PARENT, &device_path);
    assert!(*disabled.borrow() >= 1);
}

#[test]
fn test_boot_from_device_path_watchdog_set_failure() {
    let device_path = create_test_device_path();
    let mut mock = MockBootServices::new();
    mock.load = Box::new(|_, _| Ok(0));
    mock.watchdog = Box::new(|_| Err(status(efi::Status::DEVICE_ERROR)));
    let calls = mock.calls.clone();

    let result = boot_from_device_path(&mut Firmware::new(mock), PARENT, &device_path);
    assert!(result.is_err());
    assert_eq!(result, Err(EfiError::DeviceError));
    assert_eq!(*calls.borrow(), ["load 1 2", "watchdog 300"]);
}

#[test]
fn boot_from_short_form_loads_expanded_path() {
    let guid = [0xAA; 16];
    let full = build_full_path_with_hd(guid);
    let bytes = full.to_bytes();
    let mut mock = MockBootServices::new();
    mock.handles = Box::new(|_| Ok(vec![7]));
    mock.path = Box::new(move |_| Ok(bytes.clone()));
    mock.load = Box::new(move |_, path| {
        assert_eq!(*path, full);
        Ok(9)
    });
    mock.watchdog = Box::new(|_| Ok(()));
    mock.start = Box::new(|_| Ok(()));
    let calls = mock.calls.clone();

    let result =
        boot_from_device_path(&mut Firmware::new(mock), PARENT, &build_partial_hd_path(guid));
    assert_eq!(result, Ok(()));
    assert_eq!(
        *calls.borrow(),
        ["locate device-path", "path 7", "load 1 4", "watchdog 300", "start 9", "watchdog 0"]
    );
}

#[test]
fn boot_from_unknown_partition_loads_nothing() {
    let mut mock = MockBootServices::new();
    mock.handles = Box::new(|_| Ok(Vec::new()));
    let calls = mock.calls.clone();

    let partial = build_partial_hd_path([0xAA; 16]);
    let result = boot_from_device_path(&mut Firmware::new(mock), PARENT, &partial);
    assert_eq!(result, Err(EfiError::NotFound));
    assert_eq!(*calls.borrow(), ["locate device-path"]);
}

#[test]
fn every_device_is_tried_in_order() {
    let devices = vec![
        path_of(&[pci_root()]),
        path_of(&[pci_root(), pci(0, 1)]),
        path_of(&[pci_root(), pci(0, 1), pci(0, 2)]),
    ];
    let mut mock = MockBootServices::new();
    mock.load = Box::new(|_, path| {
        if path.node_count() == 2 {
            Err(status(efi::Status::NOT_FOUND))
        } else {
            Ok(path.node_count())
        }
    });
    mock.watchdog = Box::new(|_| Ok(()));
    mock.start = Box::new(|image| {
        if image == 3 {
            Err(status(efi::Status::ABORTED))
        } else {
            Ok(())
        }
    });
    let calls = mock.calls.clone();

    boot_from_each(&mut Firmware::new(mock), PARENT, &devices);
    assert_eq!(
        *calls.borrow(),
        [
            "load 1 2",
            "load 1 3",
            "watchdog 300",
            "start 3",
            "watchdog 0",
            "load 1 4",
            "watchdog 300",
            "start 4",
            "watchdog 0",
        ]
    );
}

#[test]
fn test_signal_bds_phase_entry_signals_end_of_dxe() {
    let mut mock = MockBootServices::new();
    mock.create = Box::new(|_| Ok(0));
    mock.signal = Box::new(|_| Ok(()));
    mock.close = Box::new(|_| Ok(()));
    let calls = mock.calls.clone();

    let result = signal_bds_phase_entry(&mut Firmware::new(mock));
    assert!(result.is_ok());
    assert_eq!(*calls.borrow(), ["create end-of-dxe", "signal 0", "close 0"]);
}

#[test]
fn test_signal_ready_to_boot() {
    let mut mock = MockBootServices::new();
    mock.create = Box::new(|_| Ok(0));
    mock.signal = Box::new(|_| Ok(()));
    mock.close = Box::new(|_| Ok(()));
    let calls = mock.calls.clone();

    let result = signal_ready_to_boot(&mut Firmware::new(mock));
    assert!(result.is_ok());
    assert_eq!(*calls.borrow(), ["create ready-to-boot", "signal 0", "close 0"]);
}

#[test]
fn test_signal_bds_phase_entry_create_event_failure() {
    let mut mock = MockBootServices::new();
    mock.create = Box::new(|_| Err(status(efi::Status::OUT_OF_RESOURCES)));

    let result = signal_bds_phase_entry(&mut Firmware::new(mock));
    assert!(result.is_err());
    assert_eq!(result, Err(EfiError::OutOfResources));
}

#[test]
fn test_signal_bds_phase_entry_signal_failure() {
    let mut mock = MockBootServices::new();
    mock.create = Box::new(|_| Ok(0));
    mock.signal = Box::new(|_| Err(status(efi::Status::INVALID_PARAMETER)));
    mock.close = Box::new(|_| Ok(()));
    let calls = mock.calls.clone();

    let result = signal_bds_phase_entry(&mut Firmware::new(mock));
    assert!(result.is_err());
    assert_eq!(calls.borrow().last().unwrap(), "close 0");
}

#[test]
fn test_signal_bds_phase_entry_close_event_failure() {
    let mut mock = MockBootServices::new();
    mock.create = Box::new(|_| Ok(0));
    mock.signal = Box::new(|_| Ok(()));
    mock.close = Box::new(|_| Err(status(efi::Status::INVALID_PARAMETER)));

    let result = signal_bds_phase_entry(&mut Firmware::new(mock));
    assert!(result.is_err());
}

#[test]
fn test_signal_ready_to_boot_create_event_failure() {
    let mut mock = MockBootServices::new();
    mock.create = Box::new(|_| Err(status(efi::Status::OUT_OF_RESOURCES)));

    let result = signal_ready_to_boot(&mut Firmware::new(mock));
    assert!(result.is_err());
}

#[test]
fn first_failure_of_a_signal_is_reported() {
    let mut mock = MockBootServices::new();
    mock.create = Box::new(|_| Ok(3));
    mock.signal = Box::new(|_| Err(status(efi::Status::INVALID_PARAMETER)));
    mock.close = Box::new(|_| Err(status(efi::Status::DEVICE_ERROR)));

    let result = signal_ready_to_boot(&mut Firmware::new(mock));
    assert_eq!(result, Err(EfiError::InvalidParameter));
}

#[test]
fn test_connect_all_locate_failure() {
    let mut mock = MockBootServices::new();
    mock.handles = Box::new(|_| Err(status(efi::Status::NOT_FOUND)));

    let result = connect_all(&mut Firmware::new(mock));
    assert!(result.is_err());
    assert_eq!(result, Err(EfiError::NotFound));
}

#[test]
fn test_connect_all_stabilizes_after_two_iterations() {
    let call_count = Rc::new(RefCell::new(0));
    let counter = call_count.clone();
    let mut mock = MockBootServices::new();
    mock.handles = Box::new(move |_| {
        let n = *counter.borrow();
        *counter.borrow_mut() += 1;
        let count = if n == 0 { 1 } else { 2 };
        Ok((1..=count).collect())
    });
    mock.connect = Box::new(|_| Ok(()));
    let calls = mock.calls.clone();

    let result = connect_all(&mut Firmware::new(mock));
    assert!(result.is_ok());
    // 3 iterations: 1 handle, 2 handles, 2 handles (stabilized)
    assert_eq!(*call_count.borrow(), 3);
    assert_eq!(
        *calls.borrow(),
        [
            "locate all",
            "connect 1",
            "locate all",
            "connect 1",
            "connect 2",
            "locate all",
            "connect 1",
            "connect 2",
        ]
    );
}

#[test]
fn connect_all_gives_up_after_ten_passes() {
    let mut listed = 0;
    let mut mock = MockBootServices::new();
    mock.handles = Box::new(move |_| {
        listed += 1;
        Ok(vec![1; listed])
    });
    mock.connect = Box::new(|_| Err(status(efi::Status::NOT_FOUND)));
    let calls = mock.calls.clone();

    assert_eq!(connect_all(&mut Firmware::new(mock)), Ok(()));
    assert_eq!(calls.borrow().iter().filter(|call| *call == "locate all").count(), 10);
    assert_eq!(calls.borrow().iter().filter(|call| *call == "connect 1").count(), 55);
}

#[test]
fn connect_all_without_handles_takes_one_pass() {
    let mut mock = MockBootServices::new();
    mock.handles = Box::new(|_| Ok(Vec::new()));
    let calls = mock.calls.clone();

    assert_eq!(connect_all(&mut Firmware::new(mock)), Ok(()));
    assert_eq!(*calls.borrow(), ["locate all"]);
}

#[test]
fn test_detect_hotkey_no_input_handles() {
    let mut mock = MockBootServices::new();
    mock.handles = Box::new(|_| Err(status(efi::Status::NOT_FOUND)));

    let result = detect_hotkey(&mut Firmware::new(mock), 0x16); // F12
    assert!(!result);
}

#[test]
fn test_detect_hotkey_from_handles_finds_matching_key() {
    let mut mock = MockBootServices::new();
    mock.keys = Box::new(|_| Ok(vec![InputKey { scan_code: 0x16, unicode_char: 0 }]));

    let result = detect_hotkey_from_handles(&mut Firmware::new(mock), &vec![1], 0x16);
    assert!(result, "F12 hotkey should be detected");
}

#[test]
fn test_detect_hotkey_from_handles_no_keys_buffered() {
    let mut mock = MockBootServices::new();
    mock.keys = Box::new(|_| Ok(Vec::new()));

    let result = detect_hotkey_from_handles(&mut Firmware::new(mock), &vec![1], 0x16);
    assert!(!result, "No keys in buffer should return false");
}

#[test]
fn test_detect_hotkey_from_handles_protocol_failure() {
    let mut mock = MockBootServices::new();
    mock.keys = Box::new(|_| Err(status(efi::Status::UNSUPPORTED)));

    let result = detect_hotkey_from_handles(&mut Firmware::new(mock), &vec![1], 0x16);
    assert!(!result, "Protocol failure should return false");
}

#[test]
fn hotkey_is_looked_for_on_every_console() {
    let mut mock = MockBootServices::new();
    mock.handles = Box::new(|_| Ok(vec![1, 2, 3, 4]));
    mock.keys = Box::new(|handle| match handle {
        1 => Err(status(efi::Status::UNSUPPORTED)),
        3 => Ok(vec![
            InputKey { scan_code: 0x01, unicode_char: 0 },
            InputKey { scan_code: 0x16, unicode_char: 0 },
        ]),
        _ => Ok(vec![InputKey { scan_code: 0x0b, unicode_char: 0x16 }]),
    });
    let calls = mock.calls.clone();

    assert!(detect_hotkey(&mut Firmware::new(mock), 0x16));
    assert_eq!(*calls.borrow(), ["locate text-input", "keys 1", "keys 2", "keys 3", "keys 4"]);
}

#[test]
fn keys_are_read_for_as_long_as_reads_succeed() {
    assert!(keeps_reading(status(efi::Status::SUCCESS)));
    assert!(!keeps_reading(status(efi::Status::NOT_READY)));
    assert!(!keeps_reading(status(efi::Status::DEVICE_ERROR)));
}

#[test]
fn without_a_hotkey_no_key_is_read() {
    let mock = MockBootServices::new();
    assert!(!check_hotkey(&mut Firmware::new(mock), None));
}

/// A short-form path that starts with a hard drive node.
fn build_partial_hd_path(guid: [u8; 16]) -> DevicePathBuf {
    path_of(&[hard_drive(1, 2048, 1000000, guid)])
}

/// A full path that starts with an ACPI root.
fn build_full_path_with_hd(guid: [u8; 16]) -> DevicePathBuf {
    let mut path = path_of(&[pci_root()]);
    let pci_path = path_of(&[pci(0, 0x1D)]);
    path.append_device_path(&pci_path);
    let hd_path = path_of(&[hard_drive(1, 2048, 1000000, guid)]);
    path.append_device_path(&hd_path);
    path
}

#[test]
fn test_is_partial_with_hd_node() {
    let partial = build_partial_hd_path([0xAA; 16]);
    assert!(is_partial_device_path(&partial));
}

#[test]
fn test_is_partial_with_full_path_acpi() {
    let full = build_full_path_with_hd([0xAA; 16]);
    assert!(!is_partial_device_path(&full));
}

#[test]
fn test_is_partial_empty_path() {
    let empty = DevicePathBuf::from_nodes(vec![DevicePathNode::end_entire()]);
    assert!(!is_partial_device_path(&empty));
}

#[test]
fn only_hardware_and_acpi_paths_are_full() {
    assert!(!is_partial_device_path(&path_of(&[pci_root()])));
    assert!(!is_partial_device_path(&path_of(&[pci(0, 1)])));
    assert!(is_partial_device_path(&path_of(&[(0x04, 0x07, vec![0; 16])])));
    assert!(is_partial_device_path(&path_of(&[(0x04, 0x06, vec![0; 16])])));
    assert!(is_partial_device_path(&path_of(&[(0x03, 0x17, vec![0; 12])])));
    assert!(is_partial_device_path(&path_of(&[file_path("\\EFI")])));
}

#[test]
fn test_expand_already_full_returns_unchanged() {
    let full = build_full_path_with_hd([0xAA; 16]);
    let mock = MockBootServices::new();

    let result = expand_device_path(&mut Firmware::new(mock), &full);
    assert!(result.is_ok());
    assert_eq!(result.unwrap(), full);
}

#[test]
fn test_expand_partial_path_locate_fails() {
    let partial = build_partial_hd_path([0xBB; 16]);
    let mut mock = MockBootServices::new();
    mock.handles = Box::new(|_| Err(status(efi::Status::NOT_FOUND)));

    let result = expand_device_path(&mut Firmware::new(mock), &partial);
    assert!(result.is_err(), "expand_device_path should fail when no handles found");
}

#[test]
fn test_expand_partial_path_matches_partition() {
    let guid = [0xAA; 16];
    let partial = build_partial_hd_path(guid);
    let full = build_full_path_with_hd(guid);
    let bytes = full.to_bytes();
    let mut mock = MockBootServices::new();
    mock.handles = Box::new(|_| Ok(vec![1]));
    mock.path = Box::new(move |_| Ok(bytes.clone()));

    let result = expand_device_path(&mut Firmware::new(mock), &partial);
    assert!(result.is_ok(), "Should find matching partition");
    let expanded = result.unwrap();
    assert!(!is_partial_device_path(&expanded), "Expanded path should be a full path");
    assert_eq!(expanded, full);
}

#[test]
fn test_expand_partial_path_no_matching_partition() {
    let partial = build_partial_hd_path([0xAA; 16]);
    let bytes = build_full_path_with_hd([0xBB; 16]).to_bytes();
    let mut mock = MockBootServices::new();
    mock.handles = Box::new(|_| Ok(vec![1]));
    mock.path = Box::new(move |_| Ok(bytes.clone()));

    let result = expand_device_path(&mut Firmware::new(mock), &partial);
    assert!(result.is_err(), "Should fail when no partition matches");
    assert_eq!(result.err(), Some(EfiError::NotFound));
}

#[test]
fn test_expand_partial_path_truncates_at_matched_node() {
    let guid = [0xAA; 16];
    let mut partial = path_of(&[hard_drive(1, 2048, 1000000, guid)]);
    partial.append_device_path(&path_of(&[file_path("\\EFI\\Boot\\BOOTX64.efi")]));

    let mut handle_dp = build_full_path_with_hd(guid);
    handle_dp.append_device_path(&path_of(&[file_path("\\some\\other\\path")]));
    let bytes = handle_dp.to_bytes();

    let mut mock = MockBootServices::new();
    mock.handles = Box::new(|_| Ok(vec![1]));
    mock.path = Box::new(move |_| Ok(bytes.clone()));

    let result = expand_device_path(&mut Firmware::new(mock), &partial);
    assert!(result.is_ok());

    let expanded = result.unwrap();
    let node_count = expanded.node_count();
    assert_eq!(node_count, 5, "Should have prefix(3) + remaining(1) + End, got {node_count} nodes");
    let mut expected = build_full_path_with_hd(guid);
    expected.append_device_path(&path_of(&[file_path("\\EFI\\Boot\\BOOTX64.efi")]));
    assert_eq!(expanded, expected);
}

#[test]
fn test_expand_partial_path_handle_protocol_failure() {
    let partial = build_partial_hd_path([0xAA; 16]);
    let mut mock = MockBootServices::new();
    mock.handles = Box::new(|_| Ok(vec![1]));
    mock.path = Box::new(|_| Err(status(efi::Status::UNSUPPORTED)));

    let result = expand_device_path(&mut Firmware::new(mock), &partial);
    assert!(result.is_err(), "Should fail when handle_protocol fails");
}

#[test]
fn expansion_stops_at_the_first_match() {
    let guid = [0xAA; 16];
    let near = build_full_path_with_hd(guid);
    let bytes = near.to_bytes();
    let mut mock = MockBootServices::new();
    mock.handles = Box::new(|_| Ok(vec![1, 2, 3, 4]));
    mock.path = Box::new(move |handle| match handle {
        1 => Err(status(efi::Status::UNSUPPORTED)),
        2 => Ok(vec![0x02, 0x01, 0x03, 0x00]),
        3 => Ok(bytes.clone()),
        _ => panic!("handle {handle}"),
    });
    let calls = mock.calls.clone();

    let result = expand_device_path(&mut Firmware::new(mock), &build_partial_hd_path(guid));
    assert_eq!(result, Ok(near));
    assert_eq!(*calls.borrow(), ["locate device-path", "path 1", "path 2", "path 3"]);
}

#[test]
fn paths_without_a_partition_are_refused() {
    let mut firmware = Firmware::new(MockBootServices::new());
    let empty = DevicePathBuf::from_nodes(Vec::new());
    assert_eq!(expand_device_path(&mut firmware, &empty), Err(EfiError::InvalidParameter));
    let firmware_file = path_of(&[(0x04, 0x07, vec![0; 16]), (0x04, 0x06, vec![0; 16])]);
    assert_eq!(
        expand_device_path(&mut firmware, &firmware_file),
        Err(EfiError::InvalidParameter)
    );
    let file_only = path_of(&[file_path("\\EFI\\Boot\\BOOTX64.efi")]);
    assert_eq!(expand_device_path(&mut firmware, &file_only), Err(EfiError::InvalidParameter));
}

#[test]
fn expanding_again_changes_nothing() {
    let guid = [0xAA; 16];
    let bytes = build_full_path_with_hd(guid).to_bytes();
    let mut mock = MockBootServices::new();
    mock.handles = Box::new(|_| Ok(vec![1]));
    mock.path = Box::new(move |_| Ok(bytes.clone()));
    let mut firmware = Firmware::new(mock);

    let once = expand_device_path(&mut firmware, &build_partial_hd_path(guid)).unwrap();
    let twice = expand_device_path(&mut firmware, &once).unwrap();
    assert_eq!(once, twice);
}

#[test]
fn test_build_multi_instance_device_path_single_protocol() {
    let dp = path_of(&[pci_root()]);
    let bytes = dp.to_bytes();
    let mut mock = MockBootServices::new();
    mock.handles = Box::new(|_| Ok(vec![1]));
    mock.path = Box::new(move |_| Ok(bytes.clone()));

    let result = build_multi_instance_device_path(
        &mut Firmware::new(mock),
        &vec![Guid::simple_text_input()],
    );
    assert!(result.is_some());
    let multi = result.unwrap();
    assert_eq!(multi.to_bytes(), dp.to_bytes());
}

#[test]
fn test_build_multi_instance_device_path_deduplicates_handles() {
    let bytes = path_of(&[pci_root()]).to_bytes();
    let asked = Rc::new(RefCell::new(0));
    let counter = asked.clone();
    let mut mock = MockBootServices::new();
    mock.handles = Box::new(|_| Ok(vec![1]));
    mock.path = Box::new(move |_| {
        *counter.borrow_mut() += 1;
        Ok(bytes.clone())
    });

    let result = build_multi_instance_device_path(
        &mut Firmware::new(mock),
        &vec![Guid::simple_text_output(), Guid::graphics_output()],
    );
    assert!(result.is_some());
    assert_eq!(*asked.borrow(), 1);
}

#[test]
fn test_build_multi_instance_device_path_handle_protocol_failure() {
    let mut mock = MockBootServices::new();
    mock.handles = Box::new(|_| Ok(vec![1]));
    mock.path = Box::new(|_| Err(status(efi::Status::UNSUPPORTED)));

    let result = build_multi_instance_device_path(
        &mut Firmware::new(mock),
        &vec![Guid::simple_text_input()],
    );
    assert!(result.is_none());
}

#[test]
fn instances_follow_the_order_of_the_handles() {
    let mut mock = MockBootServices::new();
    mock.handles = Box::new(|search| {
        if search == HandleSearch::ByProtocol(Guid::simple_text_output()) {
            Ok(vec![4, 2, 4])
        } else {
            Ok(vec![2, 3])
        }
    });
    mock.path = Box::new(|handle| {
        if handle == 2 {
            Err(status(efi::Status::UNSUPPORTED))
        } else {
            Ok(path_of(&[pci(0, handle as u8)]).to_bytes())
        }
    });
    let calls = mock.calls.clone();

    let result = build_multi_instance_device_path(
        &mut Firmware::new(mock),
        &vec![Guid::simple_text_output(), Guid::graphics_output()],
    );
    assert_eq!(
        result.unwrap().to_bytes(),
        [
            0x01, 0x01, 0x06, 0x00, 0, 4, 0x7f, 0x01, 0x04, 0x00, 0x01, 0x01, 0x06, 0x00, 0, 3,
            0x7f, 0xff, 0x04, 0x00,
        ]
    );
    assert_eq!(
        *calls.borrow(),
        ["locate text-output", "path 4", "path 2", "locate graphics-output", "path 3"]
    );
}

#[test]
fn test_discover_console_devices_handles_missing_protocols() {
    let mut mock = MockBootServices::new();
    mock.handles = Box::new(|_| Err(status(efi::Status::NOT_FOUND)));
    let calls = mock.calls.clone();
    let mut runtime = MockRuntimeServices { variables: Vec::new(), reply: Ok(()) };

    let result = discover_console_devices(&mut Firmware::new(mock), &mut runtime);
    assert!(result.is_ok());
    assert!(runtime.variables.is_empty());
    assert_eq!(
        *calls.borrow(),
        ["locate text-input", "locate text-output", "locate graphics-output", "locate text-output"]
    );
}

#[test]
fn test_discover_console_devices_sets_variables() {
    let dp = path_of(&[pci_root()]);
    let bytes = dp.to_bytes();
    let mut mock = MockBootServices::new();
    mock.handles = Box::new(|_| Ok(vec![1]));
    mock.path = Box::new(move |_| Ok(bytes.clone()));
    let mut runtime = MockRuntimeServices { variables: Vec::new(), reply: Ok(()) };

    let result = discover_console_devices(&mut Firmware::new(mock), &mut runtime);
    assert!(result.is_ok());
    assert_eq!(runtime.variables.len(), 3);
    let attributes = r_efi::system::VARIABLE_NON_VOLATILE
        | r_efi::system::VARIABLE_BOOTSERVICE_ACCESS
        | r_efi::system::VARIABLE_RUNTIME_ACCESS;
    for (variable, name) in runtime.variables.iter().zip(["ConIn\0", "ConOut\0", "ErrOut\0"]) {
        assert_eq!(variable.0, name);
        assert_eq!(variable.1, Guid::global_variable());
        assert_eq!(variable.2, attributes);
        assert_eq!(variable.3, dp.to_bytes());
    }
}

#[test]
fn test_discover_console_devices_set_variable_failure_is_non_fatal() {
    let bytes = path_of(&[pci_root()]).to_bytes();
    let mut mock = MockBootServices::new();
    mock.handles = Box::new(|_| Ok(vec![1]));
    mock.path = Box::new(move |_| Ok(bytes.clone()));
    let mut runtime = MockRuntimeServices {
        variables: Vec::new(),
        reply: Err(status(efi::Status::OUT_OF_RESOURCES)),
    };

    let result = discover_console_devices(&mut Firmware::new(mock), &mut runtime);
    assert!(result.is_ok(), "set_variable failure should be non-fatal");
    assert_eq!(runtime.variables.len(), 3);
}

#[test]
fn console_variables_read_back_as_the_devices() {
    let mut mock = MockBootServices::new();
    mock.handles = Box::new(|search| {
        if search == HandleSearch::ByProtocol(Guid::simple_text_input()) {
            Ok(vec![1, 2])
        } else {
            Err(status(efi::Status::NOT_FOUND))
        }
    });
    mock.path = Box::new(|handle| Ok(path_of(&[pci(0, handle as u8)]).to_bytes()));
    let mut runtime = MockRuntimeServices { variables: Vec::new(), reply: Ok(()) };

    let mut firmware = Firmware::new(mock);
    let discovered = ConsoleDiscovery.entry_point(&mut firmware, &mut runtime);
    assert_eq!(discovered, Ok(()));
    assert_eq!(runtime.variables.len(), 1);
    let mut data = runtime.variables[0].3.clone();
    data.extend_from_slice(&[1, 2, 3]);
    let mut expected = path_of(&[pci(0, 1)]);
    expected.append_device_path_instances(&path_of(&[pci(0, 2)]));
    assert_eq!(DevicePathBuf::try_from_bytes(&data), Some(expected));
}
