use std::cell::RefCell;
use std::rc::Rc;

use patina_boot::device_path::{DevicePathBuf, DevicePathNode};
use patina_boot::error::{EfiError, Status};
use patina_boot::firmware::{
    BootServices, Event, Firmware, Handle, HandleSearch, InputKey, Interface, Log,
};
use patina_boot::guid::Guid;
use patina_boot::partition::nvme_pass_thru::{
    Command, CommandPacket, Completion, BPWPS_LOCK_BP0_BP1, FID_BOOT_PARTITION_WRITE_PROTECTION,
    OPCODE_SET_FEATURES, QUEUE_TYPE_ADMIN,
};
use patina_boot::partition::{
    lock_nvme_boot_partitions, lock_partition_write, lock_partition_write_inner,
};
use r_efi::efi;

type Calls = Rc<RefCell<Vec<String>>>;

/// Boot services that note each call and reply as a test says. A call that no reply was set for
/// fails the test.
struct MockBootServices {
    calls: Calls,
    handles: Box<dyn FnMut(HandleSearch) -> Result<Vec<Handle>, Status>>,
    connect: Box<dyn FnMut(Handle) -> Result<(), Status>>,
    path: Box<dyn FnMut(Handle) -> Result<Vec<u8>, Status>>,
    keys: Box<dyn FnMut(Handle) -> Result<Vec<InputKey>, Status>>,
    interface: Box<dyn FnMut(Handle, Guid) -> Result<Interface, Status>>,
    closest: Box<dyn FnMut(Guid) -> Result<Handle, Status>>,
    pass_thru: Box<dyn FnMut(Interface, u32, CommandPacket) -> (Status, Completion)>,
    load: Box<dyn FnMut(Handle, &DevicePathBuf) -> Result<Handle, Status>>,
    start: Box<dyn FnMut(Handle) -> Result<(), Status>>,
    watchdog: Box<dyn FnMut(usize) -> Result<(), Status>>,
    create: Box<dyn FnMut(Guid) -> Result<Event, Status>>,
    signal: Box<dyn FnMut(Event) -> Result<(), Status>>,
    close: Box<dyn FnMut(Event) -> Result<(), Status>>,
    install: Box<dyn FnMut(Guid, Interface) -> Result<Handle, Status>>,
}

impl MockBootServices {
    fn new() -> Self {
        MockBootServices {
            calls: Rc::new(RefCell::new(Vec::new())),
            handles: Box::new(|_| panic!("locate_handle_buffer")),
            connect: Box::new(|_| panic!("connect_controller")),
            path: Box::new(|_| panic!("device_path")),
            keys: Box::new(|_| panic!("read_key_strokes")),
            interface: Box::new(|_, _| panic!("handle_protocol")),
            closest: Box::new(|_| panic!("locate_device_path")),
            pass_thru: Box::new(|_, _, _| panic!("nvme_pass_thru")),
            load: Box::new(|_, _| panic!("load_image")),
            start: Box::new(|_| panic!("start_image")),
            watchdog: Box::new(|_| panic!("set_watchdog_timer")),
            create: Box::new(|_| panic!("create_event_ex")),
            signal: Box::new(|_| panic!("signal_event")),
            close: Box::new(|_| panic!("close_event")),
            install: Box::new(|_, _| panic!("install_protocol_interface")),
        }
    }

    fn note(&self, call: String) {
        self.calls.borrow_mut().push(call);
    }
}

impl BootServices for MockBootServices {
    fn called(&self) -> Log {
        unreachable!()
    }

    fn locate_handle_buffer(&mut self, search: HandleSearch) -> Result<Vec<Handle>, Status> {
        self.note(match search {
            HandleSearch::AllHandles => format!("locate all"),
            HandleSearch::ByProtocol(protocol) => format!("locate {}", name_of(protocol)),
        });
        (self.handles)(search)
    }

    fn connect_controller(
        &mut self,
        controller: Handle,
        drivers: Vec<Handle>,
        remaining_path: Option<DevicePathBuf>,
        recursive: bool,
    ) -> Result<(), Status> {
        assert!(drivers.is_empty() && remaining_path.is_none() && recursive);
        self.note(format!("connect {controller}"));
        (self.connect)(controller)
    }

    fn device_path(&mut self, handle: Handle) -> Result<Vec<u8>, Status> {
        self.note(format!("path {handle}"));
        (self.path)(handle)
    }

    fn read_key_strokes(&mut self, handle: Handle) -> Result<Vec<InputKey>, Status> {
        self.note(format!("keys {handle}"));
        (self.keys)(handle)
    }

    fn handle_protocol(&mut self, handle: Handle, protocol: Guid) -> Result<Interface, Status> {
        self.note(format!("interface {handle} {}", name_of(protocol)));
        (self.interface)(handle, protocol)
    }

    fn locate_device_path(&mut self, protocol: Guid, path: &DevicePathBuf) -> Result<Handle, Status> {
        self.note(format!("closest {} {}", name_of(protocol), path.node_count()));
        (self.closest)(protocol)
    }

    fn nvme_pass_thru(
        &mut self,
        protocol: Interface,
        namespace_id: u32,
        packet: CommandPacket,
    ) -> (Status, Completion) {
        self.note(format!("pass-thru {protocol} {namespace_id}"));
        (self.pass_thru)(protocol, namespace_id, packet)
    }

    fn load_image(
        &mut self,
        boot_policy: bool,
        parent: Handle,
        path: &DevicePathBuf,
    ) -> Result<Handle, Status> {
        assert!(boot_policy);
        self.note(format!("load {parent} {}", path.node_count()));
        (self.load)(parent, path)
    }

    fn start_image(&mut self, image: Handle) -> Result<(), Status> {
        self.note(format!("start {image}"));
        (self.start)(image)
    }

    fn set_watchdog_timer(&mut self, seconds: usize) -> Result<(), Status> {
        self.note(format!("watchdog {seconds}"));
        (self.watchdog)(seconds)
    }

    fn create_event_ex(
        &mut self,
        event_type: u32,
        notify_tpl: usize,
        group: Guid,
    ) -> Result<Event, Status> {
        assert_eq!(event_type, 0x200);
        assert_eq!(notify_tpl, 8);
        self.note(format!("create {}", name_of(group)));
        (self.create)(group)
    }

    fn signal_event(&mut self, event: Event) -> Result<(), Status> {
        self.note(format!("signal {event}"));
        (self.signal)(event)
    }

    fn close_event(&mut self, event: Event) -> Result<(), Status> {
        self.note(format!("close {event}"));
        (self.close)(event)
    }

    fn install_protocol_interface(
        &mut self,
        handle: Option<Handle>,
        protocol: Guid,
        interface: Interface,
    ) -> Result<Handle, Status> {
        assert!(handle.is_none());
        self.note(format!("install {} {interface}", name_of(protocol)));
        (self.install)(protocol, interface)
    }
}

fn name_of(guid: Guid) -> &'static str {
    if guid == Guid::simple_text_input() {
        "text-input"
    } else if guid == Guid::simple_text_output() {
        "text-output"
    } else if guid == Guid::graphics_output() {
        "graphics-output"
    } else if guid == Guid::device_path() {
        "device-path"
    } else if guid == Guid::nvme_pass_thru() {
        "nvme-pass-thru"
    } else if guid == Guid::end_of_dxe() {
        "end-of-dxe"
    } else if guid == Guid::ready_to_boot() {
        "ready-to-boot"
    } else if guid == Guid::bds() {
        "bds"
    } else {
        panic!("unexpected GUID {guid:?}")
    }
}

fn status(status: efi::Status) -> Status {
    status.as_usize()
}

fn create_test_device_path() -> DevicePathBuf {
    DevicePathBuf::from_nodes(vec![DevicePathNode::end_entire()])
}

#[test]
fn test_lock_partition_write_locate_failure() {
    let device_path = create_test_device_path();
    let mut mock = MockBootServices::new();
    mock.closest = Box::new(|_| Err(status(efi::Status::NOT_FOUND)));

    let result = lock_partition_write(&mut Firmware::new(mock), &device_path);
    assert!(result.is_err(), "missing NVMe Pass-Thru on path must surface as Err");
    assert_eq!(result, Err(EfiError::NotFound));
}

#[test]
fn test_lock_partition_write_handle_protocol_failure() {
    let device_path = create_test_device_path();
    let mut mock = MockBootServices::new();
    mock.closest = Box::new(|_| Ok(1));
    mock.interface = Box::new(|_, _| Err(status(efi::Status::UNSUPPORTED)));

    let result = lock_partition_write(&mut Firmware::new(mock), &device_path);
    assert!(result.is_err(), "unsupported protocol on located handle must surface as Err");
    assert_eq!(result, Err(EfiError::Unsupported));
}

#[test]
fn test_lock_partition_write_set_features_payload() {
    assert_eq!(OPCODE_SET_FEATURES, 0x09, "Set Features admin opcode");
    assert_eq!(FID_BOOT_PARTITION_WRITE_PROTECTION, 0x11, "BPWPS feature identifier");
    assert_eq!(QUEUE_TYPE_ADMIN, 0, "admin queue selector");
    assert_eq!(
        BPWPS_LOCK_BP0_BP1, 0x09,
        "CDW11 must encode BP0WPS=001b in bits 2:0 and BP1WPS=001b in bits 5:3"
    );
}

#[test]
fn test_lock_partition_write_inner_issues_correct_set_features_command() {
    let captured = Rc::new(RefCell::new(None));
    let slot = captured.clone();
    let mut mock = MockBootServices::new();
    mock.pass_thru = Box::new(move |_, _, packet| {
        *slot.borrow_mut() = Some(packet);
        (status(efi::Status::SUCCESS), Completion::zero())
    });
    let calls = mock.calls.clone();

    let result = lock_partition_write_inner(&mut Firmware::new(mock), 0x5000);

    assert!(result.is_ok(), "successful pass-thru must produce Ok");
    let packet = captured.borrow().unwrap();
    assert_eq!(packet.nvme_cmd.cdw0 & 0xFF, 0x09, "Set Features opcode");
    assert_eq!(packet.nvme_cmd.flags, 0b0000_1100, "CDW10 + CDW11 marked valid");
    assert_eq!(packet.nvme_cmd.cdw10, 0x11, "FID = BPWPS");
    assert_eq!(packet.nvme_cmd.cdw11, 0x09, "BP0WPS=001b, BP1WPS=001b");
    assert_eq!(packet.queue_type, 0, "admin queue");
    assert_eq!(
        packet,
        CommandPacket {
            command_timeout: 10_000_000,
            transfer_length: 0,
            metadata_length: 0,
            queue_type: 0,
            nvme_cmd: Command { cdw0: 0x09, flags: 0x0c, cdw10: 0x11, cdw11: 0x09, ..Command::zero() },
        }
    );
    assert_eq!(*calls.borrow(), ["pass-thru 20480 0"]);
}

#[test]
fn test_lock_partition_write_inner_passthru_failure_propagates() {
    let mut mock = MockBootServices::new();
    mock.pass_thru = Box::new(|_, _, _| (status(efi::Status::DEVICE_ERROR), Completion::zero()));

    let result = lock_partition_write_inner(&mut Firmware::new(mock), 0x5000);
    assert!(result.is_err(), "pass-thru DEVICE_ERROR must surface as Err");
    assert_eq!(result, Err(EfiError::DeviceError));
}

#[test]
fn test_lock_partition_write_inner_nonzero_completion_status_rejected() {
    let mut mock = MockBootServices::new();
    mock.pass_thru = Box::new(|_, _, _| {
        (status(efi::Status::SUCCESS), Completion { dw3: 0x2 << 17, ..Completion::zero() })
    });

    let result = lock_partition_write_inner(&mut Firmware::new(mock), 0x5000);
    assert!(result.is_err(), "non-zero completion status field must surface as Err");
    assert_eq!(result, Err(EfiError::DeviceError));
}

#[test]
fn only_the_status_field_of_a_completion_counts() {
    assert_eq!(Completion { dw3: 0x1_ffff, ..Completion::zero() }.status_field(), 0);
    assert_eq!(Completion { dw3: 0xffff_ffff, ..Completion::zero() }.status_field(), 0x7fff);
    let mut mock = MockBootServices::new();
    mock.pass_thru = Box::new(|_, _, _| (0, Completion { dw0: 7, dw1: 7, dw2: 7, dw3: 0x1_ffff }));
    assert_eq!(lock_partition_write_inner(&mut Firmware::new(mock), 1), Ok(()));
}

#[test]
fn lock_goes_to_the_controller_on_the_path() {
    let mut mock = MockBootServices::new();
    mock.closest = Box::new(|_| Ok(4));
    mock.interface = Box::new(|handle, _| Ok(100 + handle));
    mock.pass_thru = Box::new(|_, _, _| (0, Completion::zero()));
    let calls = mock.calls.clone();

    let result = lock_partition_write(&mut Firmware::new(mock), &create_test_device_path());
    assert_eq!(result, Ok(()));
    assert_eq!(
        *calls.borrow(),
        ["closest nvme-pass-thru 1", "interface 4 nvme-pass-thru", "pass-thru 104 0"]
    );
}

#[test]
fn every_controller_is_locked() {
    let mut mock = MockBootServices::new();
    mock.handles = Box::new(|_| Ok(vec![1, 2, 3]));
    mock.interface = Box::new(|handle, _| {
        if handle == 1 {
            Err(status(efi::Status::UNSUPPORTED))
        } else {
            Ok(100 + handle)
        }
    });
    mock.pass_thru = Box::new(|_, _, _| (status(efi::Status::TIMEOUT), Completion::zero()));
    let calls = mock.calls.clone();

    assert_eq!(lock_nvme_boot_partitions(&mut Firmware::new(mock)), Ok(()));
    assert_eq!(
        *calls.borrow(),
        [
            "locate nvme-pass-thru",
            "interface 1 nvme-pass-thru",
            "interface 2 nvme-pass-thru",
            "pass-thru 102 0",
            "interface 3 nvme-pass-thru",
            "pass-thru 103 0",
        ]
    );
}

#[test]
fn without_a_controller_nothing_can_be_locked() {
    let mut mock = MockBootServices::new();
    mock.handles = Box::new(|_| Err(status(efi::Status::ACCESS_DENIED)));
    assert_eq!(
        lock_nvme_boot_partitions(&mut Firmware::new(mock)),
        Err(EfiError::AccessDenied)
    );
    let mut mock = MockBootServices::new();
    mock.handles = Box::new(|_| Ok(Vec::new()));
    assert_eq!(lock_nvme_boot_partitions(&mut Firmware::new(mock)), Err(EfiError::NotFound));
}
