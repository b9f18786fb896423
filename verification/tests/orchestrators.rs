use std::cell::RefCell;
use std::collections::VecDeque;
use std::rc::Rc;
use std::sync::atomic::{AtomicUsize, Ordering};
use std::sync::Arc;

use patina_boot::boot_dispatcher::{bds_entry_point, BdsContext, BdsFailure, BdsServices};
use patina_boot::boot_storage::BootStorageService;
use patina_boot::component;
use patina_boot::component::Conclusion;
use patina_boot::config::BootConfig;
use patina_boot::device_path::{DevicePathBuf, DevicePathNode};
use patina_boot::error::{EfiError, Status};
use patina_boot::firmware::{
    BootServices, DxeDispatch, Event, Firmware, Handle, HandleSearch, InputKey, Interface, Log,
    RuntimeServices,
};
use patina_boot::guid::Guid;
use patina_boot::helpers::interleave_connect_and_dispatch;
use patina_boot::partition::nvme_pass_thru::{CommandPacket, Completion};
use patina_boot::{
    BootDispatcher, BootOrchestrator, ConnectAllStrategy, ConnectController, SimpleBootManager,
    SreBootManager,
};
use r_efi::efi;

type Calls = Rc<RefCell<Vec<String>>>;

/// Boot services that note each call and reply as a test says. A call that no reply was set for
/// fails the test.
struct MockBootServices {
    calls: Calls,
    handles: Box<dyn FnMut(HandleSearch) -> Result<Vec<Handle>, Status>>,
    connect: Box<dyn FnMut(Handle) -> Result<(), Status>>,
    path: Box<dyn FnMut(Handle) -> Result<Vec<u8>, Status>>,
    keys: Box<dyn FnMut(Handle) -> Result<Vec<InputKey>, Status>>,
    interface: Box<dyn FnMut(Handle, Guid) -> Result<Interface, Status>>,
    closest: Box<dyn FnMut(Guid) -> Result<Handle, Status>>,
    pass_thru: Box<dyn FnMut(Interface, u32, CommandPacket) -> (Status, Completion)>,
    load: Box<dyn FnMut(Handle, &DevicePathBuf) -> Result<Handle, Status>>,
    start: Box<dyn FnMut(Handle) -> Result<(), Status>>,
    watchdog: Box<dyn FnMut(usize) -> Result<(), Status>>,
    create: Box<dyn FnMut(Guid) -> Result<Event, Status>>,
    signal: Box<dyn FnMut(Event) -> Result<(), Status>>,
    close: Box<dyn FnMut(Event) -> Result<(), Status>>,
    install: Box<dyn FnMut(Guid, Interface) -> Result<Handle, Status>>,
}

impl MockBootServices {
    fn new() -> Self {
        MockBootServices {
            calls: Rc::new(RefCell::new(Vec::new())),
            handles: Box::new(|_| panic!("locate_handle_buffer")),
            connect: Box::new(|_| panic!("connect_controller")),
            path: Box::new(|_| panic!("device_path")),
            keys: Box::new(|_| panic!("read_key_strokes")),
            interface: Box::new(|_, _| panic!("handle_protocol")),
            closest: Box::new(|_| panic!("locate_device_path")),
            pass_thru: Box::new(|_, _, _| panic!("nvme_pass_thru")),
            load: Box::new(|_, _| panic!("load_image")),
            start: Box::new(|_| panic!("start_image")),
            watchdog: Box::new(|_| panic!("set_watchdog_timer")),
            create: Box::new(|_| panic!("create_event_ex")),
            signal: Box::new(|_| panic!("signal_event")),
            close: Box::new(|_| panic!("close_event")),
            install: Box::new(|_, _| panic!("install_protocol_interface")),
        }
    }

    fn note(&self, call: String) {
        self.calls.borrow_mut().push(call);
    }
}

impl BootServices for MockBootServices {
    fn called(&self) -> Log {
        unreachable!()
    }

    fn locate_handle_buffer(&mut self, search: HandleSearch) -> Result<Vec<Handle>, Status> {
        self.note(match search {
            HandleSearch::AllHandles => format!("locate all"),
            HandleSearch::ByProtocol(protocol) => format!("locate {}", name_of(protocol)),
        });
        (self.handles)(search)
    }

    fn connect_controller(
        &mut self,
        controller: Handle,
        drivers: Vec<Handle>,
        remaining_path: Option<DevicePathBuf>,
        recursive: bool,
    ) -> Result<(), Status> {
        assert!(drivers.is_empty() && remaining_path.is_none() && recursive);
        self.note(format!("connect {controller}"));
        (self.connect)(controller)
    }

    fn device_path(&mut self, handle: Handle) -> Result<Vec<u8>, Status> {
        self.note(format!("path {handle}"));
        (self.path)(handle)
    }

    fn read_key_strokes(&mut self, handle: Handle) -> Result<Vec<InputKey>, Status> {
        self.note(format!("keys {handle}"));
        (self.keys)(handle)
    }

    fn handle_protocol(&mut self, handle: Handle, protocol: Guid) -> Result<Interface, Status> {
        self.note(format!("interface {handle} {}", name_of(protocol)));
        (self.interface)(handle, protocol)
    }

    fn locate_device_path(&mut self, protocol: Guid, path: &DevicePathBuf) -> Result<Handle, Status> {
        self.note(format!("closest {} {}", name_of(protocol), path.node_count()));
        (self.closest)(protocol)
    }

    fn nvme_pass_thru(
        &mut self,
        protocol: Interface,
        namespace_id: u32,
        packet: CommandPacket,
    ) -> (Status, Completion) {
        self.note(format!("pass-thru {protocol} {namespace_id}"));
        (self.pass_thru)(protocol, namespace_id, packet)
    }

    fn load_image(
        &mut self,
        boot_policy: bool,
        parent: Handle,
        path: &DevicePathBuf,
    ) -> Result<Handle, Status> {
        assert!(boot_policy);
        self.note(format!("load {parent} {}", path.node_count()));
        (self.load)(parent, path)
    }

    fn start_image(&mut self, image: Handle) -> Result<(), Status> {
        self.note(format!("start {image}"));
        (self.start)(image)
    }

    fn set_watchdog_timer(&mut self, seconds: usize) -> Result<(), Status> {
        self.note(format!("watchdog {seconds}"));
        (self.watchdog)(seconds)
    }

    fn create_event_ex(
        &mut self,
        event_type: u32,
        notify_tpl: usize,
        group: Guid,
    ) -> Result<Event, Status> {
        assert_eq!(event_type, 0x200);
        assert_eq!(notify_tpl, 8);
        self.note(format!("create {}", name_of(group)));
        (self.create)(group)
    }

    fn signal_event(&mut self, event: Event) -> Result<(), Status> {
        self.note(format!("signal {event}"));
        (self.signal)(event)
    }

    fn close_event(&mut self, event: Event) -> Result<(), Status> {
        self.note(format!("close {event}"));
        (self.close)(event)
    }

    fn install_protocol_interface(
        &mut self,
        handle: Option<Handle>,
        protocol: Guid,
        interface: Interface,
    ) -> Result<Handle, Status> {
        assert!(handle.is_none());
        self.note(format!("install {} {interface}", name_of(protocol)));
        (self.install)(protocol, interface)
    }
}

fn name_of(guid: Guid) -> &'static str {
    if guid == Guid::simple_text_input() {
        "text-input"
    } else if guid == Guid::simple_text_output() {
        "text-output"
    } else if guid == Guid::graphics_output() {
        "graphics-output"
    } else if guid == Guid::device_path() {
        "device-path"
    } else if guid == Guid::nvme_pass_thru() {
        "nvme-pass-thru"
    } else if guid == Guid::end_of_dxe() {
        "end-of-dxe"
    } else if guid == Guid::ready_to_boot() {
        "ready-to-boot"
    } else if guid == Guid::bds() {
        "bds"
    } else {
        panic!("unexpected GUID {guid:?}")
    }
}

fn status(status: efi::Status) -> Status {
    status.as_usize()
}

/// The path made of nodes given by type, sub-type and data.
fn path_of(nodes: &[(u8, u8, Vec<u8>)]) -> DevicePathBuf {
    let nodes = nodes
        .iter()
        .map(|(node_type, sub_type, data)| {
            DevicePathNode::new(*node_type, *sub_type, data.clone()).unwrap()
        })
        .collect();
    DevicePathBuf::from_nodes(nodes)
}

/// An ACPI node for a PCI root bridge.
fn pci_root() -> (u8, u8, Vec<u8>) {
    (0x02, 0x01, vec![0xd0, 0x41, 0x03, 0x0a, 0, 0, 0, 0])
}

fn test_device_path() -> DevicePathBuf {
    DevicePathBuf::from_nodes(vec![DevicePathNode::end_entire()])
}

/// Runtime services that note the names of the variables that are written.
struct MockRuntimeServices {
    calls: Calls,
}

impl RuntimeServices for MockRuntimeServices {
    fn written(&self) -> Log {
        unreachable!()
    }

    fn set_variable(
        &mut self,
        name: &Vec<u16>,
        _namespace: Guid,
        _attributes: u32,
        _data: &Vec<u8>,
    ) -> Result<(), Status> {
        let name = String::from_utf16(&name[..name.len() - 1]).unwrap();
        self.calls.borrow_mut().push(format!("write {name}"));
        Ok(())
    }
}

/// A dispatcher that notes each call, and replies as a test says. A call too many fails the test.
struct MockDxeDispatcher {
    calls: Calls,
    results: VecDeque<Result<bool, EfiError>>,
}

impl MockDxeDispatcher {
    fn new(calls: &Calls, results: &[Result<bool, EfiError>]) -> Self {
        MockDxeDispatcher { calls: calls.clone(), results: results.iter().cloned().collect() }
    }
}

impl DxeDispatch for MockDxeDispatcher {
    fn dispatched(&self) -> Log {
        unreachable!()
    }

    fn dispatch(&mut self) -> Result<bool, EfiError> {
        self.calls.borrow_mut().push(format!("dispatch"));
        self.results.pop_front().expect("MockDxeDispatcher: unexpected dispatch call")
    }
}

/// Boot storage that notes each lock.
struct MockBootStorage {
    calls: Calls,
    reply: Result<(), EfiError>,
}

impl BootStorageService for MockBootStorage {
    fn locked(&self) -> Log {
        unreachable!()
    }

    fn lock_boot_partition(&mut self) -> Result<(), EfiError> {
        self.calls.borrow_mut().push(format!("lock"));
        self.reply
    }
}

type Flow =
    dyn BootOrchestrator<MockBootServices, MockRuntimeServices, MockDxeDispatcher, MockBootStorage>;

/// Boot services of a system with one handle, which is a console with a key pressed, and from which
/// no image can be loaded.
fn working_mock() -> MockBootServices {
    let mut mock = MockBootServices::new();
    mock.handles = Box::new(|_| Ok(vec![1]));
    mock.connect = Box::new(|_| Ok(()));
    mock.path = Box::new(|_| Ok(path_of(&[pci_root()]).to_bytes()));
    mock.keys = Box::new(|_| Ok(vec![InputKey { scan_code: 0x16, unicode_char: 0 }]));
    mock.create = Box::new(|_| Ok(5));
    mock.signal = Box::new(|_| Ok(()));
    mock.close = Box::new(|_| Ok(()));
    mock.load = Box::new(|_, _| Err(status(efi::Status::NOT_FOUND)));
    mock
}

/// Boot services of which every call fails.
fn failing_mock() -> MockBootServices {
    let mut mock = MockBootServices::new();
    mock.handles = Box::new(|_| Err(status(efi::Status::NOT_FOUND)));
    mock.create = Box::new(|_| Err(status(efi::Status::OUT_OF_RESOURCES)));
    mock.load = Box::new(|_, _| Err(status(efi::Status::NOT_FOUND)));
    mock
}

const CONNECTED: [&str; 4] = ["locate all", "connect 1", "locate all", "connect 1"];
const END_OF_DXE: [&str; 3] = ["create end-of-dxe", "signal 5", "close 5"];
const CONSOLES: [&str; 10] = [
    "locate text-input",
    "path 1",
    "write ConIn",
    "locate text-output",
    "path 1",
    "locate graphics-output",
    "write ConOut",
    "locate text-output",
    "path 1",
    "write ErrOut",
];
const HOTKEY: [&str; 2] = ["locate text-input", "keys 1"];
const READY_TO_BOOT: [&str; 3] = ["create ready-to-boot", "signal 5", "close 5"];

/// A configuration with one boot device of two nodes, one of three, and one hotkey device of four.
fn hotkey_config(calls: &Arc<AtomicUsize>) -> BootConfig {
    let handled = calls.clone();
    BootConfig::new(path_of(&[pci_root()]))
        .with_device(path_of(&[pci_root(), pci_root()]))
        .with_hotkey_device(path_of(&[pci_root(), pci_root(), pci_root()]))
        .with_failure_handler(move || {
            handled.fetch_add(1, Ordering::SeqCst);
        })
}

/// Runs a boot flow, and returns the calls that it made.
fn run(
    flow: &Flow,
    mock: MockBootServices,
    results: &[Result<bool, EfiError>],
    storage: Option<Result<(), EfiError>>,
) -> (EfiError, Vec<String>) {
    let calls = mock.calls.clone();
    let mut runtime = MockRuntimeServices { calls: calls.clone() };
    let mut dispatcher = MockDxeDispatcher::new(&calls, results);
    let mut storage = storage.map(|reply| MockBootStorage { calls: calls.clone(), reply });
    let mut firmware = Firmware::new(mock);
    let failure = flow.execute(&mut firmware, &mut runtime, &mut dispatcher, &mut storage, 77);
    let calls = calls.borrow().clone();
    (failure, calls)
}

#[test]
fn test_new_constructs() {
    let _ = SreBootManager::new(test_device_path());
}

#[test]
fn test_interleave_single_round_no_drivers_dispatched() {
    let mut boot_mock = MockBootServices::new();
    boot_mock.handles = Box::new(|_| Ok(vec![1]));
    boot_mock.connect = Box::new(|_| Ok(()));
    let calls = boot_mock.calls.clone();
    let mut dxe_mock = MockDxeDispatcher::new(&calls, &[Ok(false)]);

    let result = interleave_connect_and_dispatch(
        &ConnectAllStrategy,
        &mut Firmware::new(boot_mock),
        &mut dxe_mock,
    );
    assert!(result.is_ok());
    assert_eq!(
        *calls.borrow(),
        ["locate all", "connect 1", "locate all", "connect 1", "dispatch"]
    );
}

#[test]
fn test_interleave_dispatch_failure_propagates() {
    let mut boot_mock = MockBootServices::new();
    boot_mock.handles = Box::new(|_| Ok(vec![1]));
    boot_mock.connect = Box::new(|_| Ok(()));
    let mut dxe_mock =
        MockDxeDispatcher::new(&boot_mock.calls, &[Err(EfiError::DeviceError)]);

    let result = interleave_connect_and_dispatch(
        &ConnectAllStrategy,
        &mut Firmware::new(boot_mock),
        &mut dxe_mock,
    );
    assert!(result.is_err());
    assert_eq!(result, Err(EfiError::DeviceError));
}

#[test]
fn test_interleave_stops_at_max_rounds() {
    let mut boot_mock = MockBootServices::new();
    boot_mock.handles = Box::new(|_| Ok(vec![1]));
    boot_mock.connect = Box::new(|_| Ok(()));
    let mut dxe_mock = MockDxeDispatcher::new(&boot_mock.calls, &[Ok(true); 10]);

    let result = interleave_connect_and_dispatch(
        &ConnectAllStrategy,
        &mut Firmware::new(boot_mock),
        &mut dxe_mock,
    );
    assert!(result.is_ok());
    assert!(dxe_mock.results.is_empty());
}

#[test]
fn interleave_goes_on_while_drivers_are_dispatched() {
    let mut boot_mock = MockBootServices::new();
    boot_mock.handles = Box::new(|_| Ok(Vec::new()));
    let calls = boot_mock.calls.clone();
    let mut dxe_mock = MockDxeDispatcher::new(&calls, &[Ok(true), Ok(true), Ok(false)]);

    let result = interleave_connect_and_dispatch(
        &ConnectAllStrategy,
        &mut Firmware::new(boot_mock),
        &mut dxe_mock,
    );
    assert_eq!(result, Ok(()));
    assert_eq!(
        *calls.borrow(),
        ["locate all", "dispatch", "locate all", "dispatch", "locate all", "dispatch"]
    );
}

#[test]
fn interleave_fails_with_the_connection() {
    let mut boot_mock = MockBootServices::new();
    boot_mock.handles = Box::new(|_| Err(status(efi::Status::OUT_OF_RESOURCES)));
    let mut dxe_mock = MockDxeDispatcher::new(&boot_mock.calls, &[]);

    let result = interleave_connect_and_dispatch(
        &ConnectAllStrategy,
        &mut Firmware::new(boot_mock),
        &mut dxe_mock,
    );
    assert_eq!(result, Err(EfiError::OutOfResources));
}

#[test]
fn test_implements_boot_orchestrator() {
    fn assert_orchestrator<
        T: BootOrchestrator<
            MockBootServices,
            MockRuntimeServices,
            MockDxeDispatcher,
            MockBootStorage,
        >,
    >() {
    }
    assert_orchestrator::<SreBootManager>();
}

#[test]
fn test_arc_dyn_construction() {
    let _: Arc<Flow> = Arc::new(SreBootManager::new(test_device_path()));
}

#[test]
fn normal_boot_path_locks_the_partition_before_it_boots() {
    let manager = SreBootManager::new(path_of(&[pci_root()]));
    let (failure, calls) = run(&manager, working_mock(), &[Ok(false)], Some(Ok(())));
    assert_eq!(failure, EfiError::NotFound);
    let mut expected: Vec<&str> = Vec::new();
    expected.extend(CONNECTED);
    expected.push("dispatch");
    expected.extend(END_OF_DXE);
    expected.extend(CONSOLES);
    expected.push("lock");
    expected.extend(READY_TO_BOOT);
    expected.push("load 77 2");
    assert_eq!(calls, expected);
}

#[test]
fn normal_boot_path_does_not_need_storage() {
    let manager = SreBootManager::new(path_of(&[pci_root()]));
    let (failure, calls) = run(&manager, working_mock(), &[Ok(false)], None);
    assert_eq!(failure, EfiError::NotFound);
    assert!(!calls.contains(&format!("lock")));
    assert_eq!(calls.last().unwrap(), "load 77 2");
}

#[test]
fn normal_boot_path_goes_on_after_failures() {
    let manager = SreBootManager::new(path_of(&[pci_root()]));
    let storage = Some(Err(EfiError::DeviceError));
    let (failure, calls) = run(&manager, failing_mock(), &[], storage);
    assert_eq!(failure, EfiError::NotFound);
    assert_eq!(
        calls,
        [
            "locate all",
            "create end-of-dxe",
            "locate text-input",
            "locate text-output",
            "locate graphics-output",
            "locate text-output",
            "lock",
            "create ready-to-boot",
            "load 77 2",
        ]
    );
}

#[test]
fn simple_flow_tries_devices_in_order_and_then_handles_the_failure() {
    let handled = Arc::new(AtomicUsize::new(0));
    let manager = SimpleBootManager::new(hotkey_config(&handled));
    let (failure, calls) = run(&manager, working_mock(), &[], None);
    assert_eq!(failure, EfiError::NotFound);
    assert_eq!(handled.load(Ordering::SeqCst), 1);
    let mut expected: Vec<&str> = Vec::new();
    expected.extend(CONNECTED);
    expected.extend(END_OF_DXE);
    expected.extend(CONSOLES);
    expected.extend(READY_TO_BOOT);
    expected.extend(["load 77 2", "load 77 3"]);
    assert_eq!(calls, expected);
}

#[test]
fn simple_flow_takes_the_hotkey_devices_where_the_hotkey_was_pressed() {
    let handled = Arc::new(AtomicUsize::new(0));
    let manager = SimpleBootManager::new(hotkey_config(&handled).with_hotkey(0x16));
    let (_, calls) = run(&manager, working_mock(), &[], None);
    let mut expected: Vec<&str> = Vec::new();
    expected.extend(CONNECTED);
    expected.extend(END_OF_DXE);
    expected.extend(CONSOLES);
    expected.extend(HOTKEY);
    expected.extend(READY_TO_BOOT);
    expected.push("load 77 4");
    assert_eq!(calls, expected);

    let manager = SimpleBootManager::new(hotkey_config(&handled).with_hotkey(0x0c));
    let (_, calls) = run(&manager, working_mock(), &[], None);
    assert_eq!(calls[calls.len() - 2..], ["load 77 2", "load 77 3"]);
    assert_eq!(handled.load(Ordering::SeqCst), 2);
}

#[test]
fn simple_flow_goes_on_after_failures() {
    let handled = Arc::new(AtomicUsize::new(0));
    let manager = SimpleBootManager::new(hotkey_config(&handled));
    let (failure, calls) = run(&manager, failing_mock(), &[], None);
    assert_eq!(failure, EfiError::NotFound);
    assert_eq!(handled.load(Ordering::SeqCst), 1);
    assert_eq!(
        calls,
        [
            "locate all",
            "create end-of-dxe",
            "locate text-input",
            "locate text-output",
            "locate graphics-output",
            "locate text-output",
            "create ready-to-boot",
            "load 77 2",
            "load 77 3",
        ]
    );
}

/// Connects one controller only.
struct FirstOnly;

impl ConnectController<MockBootServices> for FirstOnly {
    fn connect(&self, firmware: &mut Firmware<MockBootServices>) -> Result<(), EfiError> {
        firmware
            .connect_controller(1, Vec::new(), None, true)
            .map_err(EfiError::from_status)
    }
}

#[test]
fn simple_flow_enumerates_by_the_strategy_of_the_platform() {
    let config = BootConfig::new(path_of(&[pci_root()]));
    let manager = SimpleBootManager::with_connect_strategy(config, FirstOnly);
    let (_, calls) = run(&manager, working_mock(), &[Ok(true), Ok(false)], None);
    assert_eq!(
        calls[..5],
        ["connect 1", "dispatch", "connect 1", "dispatch", "create end-of-dxe"]
    );
}

/// Runs the component, and returns the calls that it made.
fn run_component(
    mock: MockBootServices,
    config: &BootConfig,
    image_handle: Option<Handle>,
) -> (Conclusion, Vec<String>) {
    let calls = mock.calls.clone();
    let mut runtime = MockRuntimeServices { calls: calls.clone() };
    let mut firmware = Firmware::new(mock);
    let conclusion =
        component::BootOrchestrator.entry_point(&mut firmware, &mut runtime, config, image_handle);
    let calls = calls.borrow().clone();
    (conclusion, calls)
}

#[test]
fn component_tries_every_option() {
    let handled = Arc::new(AtomicUsize::new(0));
    let config = hotkey_config(&handled).with_hotkey(0x16);
    let (conclusion, calls) = run_component(working_mock(), &config, Some(77));
    assert_eq!(conclusion, Conclusion::Wait);
    assert_eq!(handled.load(Ordering::SeqCst), 1);
    let mut expected: Vec<&str> = Vec::new();
    expected.extend(CONNECTED);
    expected.extend(END_OF_DXE);
    expected.extend(CONSOLES);
    expected.extend(HOTKEY);
    expected.extend(READY_TO_BOOT);
    expected.push("load 77 4");
    assert_eq!(calls, expected);
}

#[test]
fn component_gives_up_at_the_first_failure() {
    let handled = Arc::new(AtomicUsize::new(0));
    let config = hotkey_config(&handled);

    let mut mock = working_mock();
    mock.handles = Box::new(|_| Err(status(efi::Status::OUT_OF_RESOURCES)));
    let (conclusion, calls) = run_component(mock, &config, Some(77));
    assert_eq!(conclusion, Conclusion::Fail(EfiError::OutOfResources));
    assert_eq!(calls, ["locate all"]);

    let mut mock = working_mock();
    mock.create = Box::new(|_| Err(status(efi::Status::ACCESS_DENIED)));
    let (conclusion, calls) = run_component(mock, &config, Some(77));
    assert_eq!(conclusion, Conclusion::Fail(EfiError::AccessDenied));
    assert_eq!(calls.last().unwrap(), "create end-of-dxe");

    let mut mock = working_mock();
    mock.create = Box::new(|group| {
        if group == Guid::end_of_dxe() {
            Ok(5)
        } else {
            Err(status(efi::Status::ABORTED))
        }
    });
    let (conclusion, calls) = run_component(mock, &config, Some(77));
    assert_eq!(conclusion, Conclusion::Fail(EfiError::Aborted));
    assert_eq!(calls.last().unwrap(), "create ready-to-boot");

    let (conclusion, calls) = run_component(working_mock(), &config, None);
    assert_eq!(conclusion, Conclusion::Fail(EfiError::InvalidParameter));
    assert_eq!(calls[calls.len() - 3..], READY_TO_BOOT);
    assert_eq!(handled.load(Ordering::SeqCst), 0);
}

struct MockOrchestrator;

impl
    BootOrchestrator<MockBootServices, MockRuntimeServices, MockDxeDispatcher, MockBootStorage>
    for MockOrchestrator
{
    fn execute(
        &self,
        _firmware: &mut Firmware<MockBootServices>,
        _runtime_services: &mut MockRuntimeServices,
        _dxe_dispatch: &mut MockDxeDispatcher,
        _boot_storage: &mut Option<MockBootStorage>,
        _image_handle: Handle,
    ) -> EfiError {
        EfiError::NotFound
    }
}

#[test]
fn test_new_boot_dispatcher() {
    let _dispatcher = BootDispatcher::new(MockOrchestrator);
}

type Services =
    BdsServices<MockBootServices, MockRuntimeServices, MockDxeDispatcher, MockBootStorage>;
type Kept<O> = Option<
    BdsContext<O, MockBootServices, MockRuntimeServices, MockDxeDispatcher, MockBootStorage>,
>;

/// Services that note their calls in `calls`, without storage.
fn services(mut mock: MockBootServices, calls: &Calls) -> Services {
    mock.calls = calls.clone();
    BdsServices {
        firmware: Firmware::new(mock),
        runtime_services: MockRuntimeServices { calls: calls.clone() },
        dxe_dispatch: MockDxeDispatcher::new(calls, &[Ok(false)]),
        boot_storage: None,
    }
}

fn new_calls() -> Calls {
    Rc::new(RefCell::new(Vec::new()))
}

#[test]
fn dispatcher_installs_the_bds_protocol() {
    let mut mock = MockBootServices::new();
    mock.install = Box::new(|_, _| Ok(3));
    let calls = mock.calls.clone();
    let mut firmware = Firmware::new(mock);
    let mut context: Kept<MockOrchestrator> = None;

    let outcome = BootDispatcher::new(MockOrchestrator).entry_point(
        &mut firmware,
        services(MockBootServices::new(), &new_calls()),
        &mut context,
        0x1000,
        Some(7),
    );
    assert_eq!(outcome, Ok(()));
    assert_eq!(*calls.borrow(), ["install bds 4096"]);
    assert!(context.is_some());
}

#[test]
fn dispatcher_needs_an_image() {
    let mut firmware = Firmware::new(MockBootServices::new());
    let mut context: Kept<MockOrchestrator> = None;
    let outcome = BootDispatcher::new(MockOrchestrator).entry_point(
        &mut firmware,
        services(MockBootServices::new(), &new_calls()),
        &mut context,
        0x1000,
        None,
    );
    assert_eq!(outcome, Err(EfiError::InvalidParameter));
    assert!(context.is_none());
}

#[test]
fn dispatcher_reports_that_it_could_not_install() {
    let mut mock = MockBootServices::new();
    mock.install = Box::new(|_, _| Err(status(efi::Status::OUT_OF_RESOURCES)));
    let mut context: Kept<MockOrchestrator> = None;
    let outcome = BootDispatcher::new(MockOrchestrator).entry_point(
        &mut Firmware::new(mock),
        services(MockBootServices::new(), &new_calls()),
        &mut context,
        0x1000,
        Some(7),
    );
    assert_eq!(outcome, Err(EfiError::OutOfResources));
}

#[test]
fn bds_runs_the_flow_of_the_first_dispatcher_on_its_services() {
    let mut mock = MockBootServices::new();
    mock.install = Box::new(|_, _| Ok(3));
    let mut firmware = Firmware::new(mock);
    let mut context: Kept<SreBootManager> = None;
    let all_calls = [new_calls(), new_calls(), new_calls(), new_calls()];
    let handles = [None, Some(7), Some(8), None];
    let mut outcomes = Vec::new();
    for (calls, handle) in all_calls.iter().zip(handles) {
        let flow = SreBootManager::new(path_of(&[pci_root()]));
        outcomes.push(BootDispatcher::new(flow).entry_point(
            &mut firmware,
            services(working_mock(), calls),
            &mut context,
            0x1000,
            handle,
        ));
    }
    let refused = Err(EfiError::InvalidParameter);
    assert_eq!(outcomes, [refused, Ok(()), Ok(()), refused]);

    let failure = bds_entry_point(&mut context);
    assert!(matches!(failure, BdsFailure::BootFailed(EfiError::NotFound)));
    assert_eq!(all_calls[1].borrow().last().unwrap(), "load 7 2");
    assert!(all_calls[0].borrow().is_empty());
    assert!(all_calls[2].borrow().is_empty());
    assert!(all_calls[3].borrow().is_empty());

    // The context is kept, against later dispatchers too, and the flow can run again.
    let flow = SreBootManager::new(path_of(&[pci_root(), pci_root()]));
    let late = BootDispatcher::new(flow).entry_point(
        &mut firmware,
        services(working_mock(), &new_calls()),
        &mut context,
        0x1000,
        Some(9),
    );
    assert_eq!(late, Ok(()));
    let kept = &mut context.as_mut().unwrap().services;
    kept.dxe_dispatch.results.push_back(Ok(false));
    let failure = bds_entry_point(&mut context);
    assert!(matches!(failure, BdsFailure::BootFailed(EfiError::NotFound)));
    let loads = all_calls[1].borrow().iter().filter(|call| *call == "load 7 2").count();
    assert_eq!(loads, 2);
}

#[test]
fn bds_without_a_dispatcher_is_reported() {
    let mut context: Kept<SreBootManager> = None;
    let failure = bds_entry_point(&mut context);
    assert!(matches!(failure, BdsFailure::NotInitialized));
    assert!(context.is_none());
}
