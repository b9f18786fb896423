//! Firmware services, and the record of what was asked of them.
//!
//! The service traits promise nothing of what a service replies, only that each call adds itself
//! to the log of the service. [`Firmware`] makes the calls and keeps, for proofs only, the
//! [`Exchange`] of each: what went into the call and what came out. The record and the logs agree.
//! What the other modules state is stated over the record, and so holds whatever a service replies.
use vstd::prelude::*;

use crate::boot_storage::BootStorageService;
use crate::config::BootConfig;
use crate::device_path::node::NodeView;
use crate::device_path::DevicePathBuf;
use crate::error::{EfiError, Status};
use crate::guid::Guid;
use crate::partition::nvme_pass_thru::{CommandPacket, Completion};

verus! {

/// Names an object of the firmware.
pub type Handle = usize;

/// Address of the interface of a protocol.
pub type Interface = usize;

/// Names an event.
pub type Event = usize;

/// Type of an event whose notification is queued when the event is signalled.
pub const EVENT_NOTIFY_SIGNAL: u32 = 0x200;

/// Task priority of event notifications.
pub const TPL_CALLBACK: usize = 8;

/// A keystroke.
#[derive(Clone, Copy, Debug, PartialEq, Eq, Structural)]
pub struct InputKey {
    pub scan_code: u16,
    pub unicode_char: u16,
}

/// Which handles to look for.
#[derive(Clone, Copy, Debug, PartialEq, Eq)]
pub enum HandleSearch {
    /// Every handle.
    AllHandles,
    /// The handles that support a protocol.
    ByProtocol(Guid),
}

/// What a [`HandleSearch`] looks for; a protocol is given by the bytes of its GUID.
pub enum Search {
    AllHandles,
    ByProtocol(Seq<u8>),
}

impl View for HandleSearch {
    type V = Search;

    open spec fn view(&self) -> Search {
        match self {
            HandleSearch::AllHandles => Search::AllHandles,
            HandleSearch::ByProtocol(protocol) => Search::ByProtocol(protocol@),
        }
    }
}

/// The boot services that boot flows call.
///
/// What a service replies is up to it. An implementation only says, for proofs, what was asked of
/// it so far, and that each call adds itself to that.
pub trait BootServices {
    /// The calls that were made, oldest first, each with its reply.
    spec fn called(&self) -> Log;

    /// Lists the handles that a search finds (`LocateHandleBuffer`).
    fn locate_handle_buffer(&mut self, search: HandleSearch) -> (reply: Result<Vec<Handle>, Status>)
        ensures
            final(self).called() == old(self).called().push(
                Exchange::LocateHandles { search: search@, reply: handles_view(reply) },
            ),
    ;

    /// Connects drivers to a controller (`ConnectController`).
    fn connect_controller(
        &mut self,
        controller: Handle,
        drivers: Vec<Handle>,
        remaining_path: Option<DevicePathBuf>,
        recursive: bool,
    ) -> (reply: Result<(), Status>)
        ensures
            final(self).called() == old(self).called().push(
                Exchange::ConnectController {
                    controller,
                    drivers: drivers@,
                    remaining_path: path_view(remaining_path),
                    recursive,
                    reply,
                },
            ),
    ;

    /// The device path that is installed on a handle, as it lies in memory (`HandleProtocol` for
    /// the DevicePath protocol, and the bytes behind the interface up to the end of the path).
    fn device_path(&mut self, handle: Handle) -> (reply: Result<Vec<u8>, Status>)
        ensures
            final(self).called() == old(self).called().push(
                Exchange::DevicePath { handle, reply: bytes_view(reply) },
            ),
    ;

    /// The keystrokes that are pending on a handle, oldest first (`HandleProtocol` for the
    /// SimpleTextInput protocol, and `ReadKeyStroke` for as long as it returns a key). They are
    /// consumed.
    fn read_key_strokes(&mut self, handle: Handle) -> (reply: Result<Vec<InputKey>, Status>)
        ensures
            final(self).called() == old(self).called().push(
                Exchange::ReadKeyStrokes { handle, reply: keys_view(reply) },
            ),
    ;

    /// The interface of a protocol on a handle (`HandleProtocol`).
    fn handle_protocol(&mut self, handle: Handle, protocol: Guid) -> (reply: Result<Interface, Status>)
        ensures
            final(self).called() == old(self).called().push(
                Exchange::HandleProtocol { handle, protocol: protocol@, reply },
            ),
    ;

    /// The handle closest to a device path that supports a protocol (`LocateDevicePath`).
    fn locate_device_path(
        &mut self,
        protocol: Guid,
        path: &DevicePathBuf,
    ) -> (reply: Result<Handle, Status>)
        ensures
            final(self).called() == old(self).called().push(
                Exchange::LocateDevicePath { protocol: protocol@, path: path@, reply },
            ),
    ;

    /// Sends a command to an NVMe controller through the interface of its Pass-Thru protocol, and
    /// waits for the completion (`PassThru`).
    fn nvme_pass_thru(
        &mut self,
        protocol: Interface,
        namespace_id: u32,
        packet: CommandPacket,
    ) -> (reply: (Status, Completion))
        ensures
            final(self).called() == old(self).called().push(
                Exchange::NvmePassThru { protocol, namespace_id, packet, reply },
            ),
    ;

    /// Loads an image from a device path (`LoadImage`).
    fn load_image(
        &mut self,
        boot_policy: bool,
        parent: Handle,
        path: &DevicePathBuf,
    ) -> (reply: Result<Handle, Status>)
        ensures
            final(self).called() == old(self).called().push(
                Exchange::LoadImage { boot_policy, parent, path: path@, reply },
            ),
    ;

    /// Starts a loaded image (`StartImage`). Returns when the image returns control.
    fn start_image(&mut self, image: Handle) -> (reply: Result<(), Status>)
        ensures
            final(self).called() == old(self).called().push(
                Exchange::StartImage { image, reply },
            ),
    ;

    /// Sets the watchdog timer, in seconds; zero disables it (`SetWatchdogTimer`).
    fn set_watchdog_timer(&mut self, seconds: usize) -> (reply: Result<(), Status>)
        ensures
            final(self).called() == old(self).called().push(
                Exchange::SetWatchdogTimer { seconds, reply },
            ),
    ;

    /// Creates an event in an event group, with a notification that does nothing (`CreateEventEx`).
    fn create_event_ex(
        &mut self,
        event_type: u32,
        notify_tpl: usize,
        group: Guid,
    ) -> (reply: Result<Event, Status>)
        ensures
            final(self).called() == old(self).called().push(
                Exchange::CreateEvent { event_type, notify_tpl, group: group@, reply },
            ),
    ;

    /// Signals an event (`SignalEvent`).
    fn signal_event(&mut self, event: Event) -> (reply: Result<(), Status>)
        ensures
            final(self).called() == old(self).called().push(
                Exchange::SignalEvent { event, reply },
            ),
    ;

    /// Closes an event (`CloseEvent`).
    fn close_event(&mut self, event: Event) -> (reply: Result<(), Status>)
        ensures
            final(self).called() == old(self).called().push(
                Exchange::CloseEvent { event, reply },
            ),
    ;

    /// Installs the interface of a protocol on a handle, or on a new one
    /// (`InstallProtocolInterface`).
    fn install_protocol_interface(
        &mut self,
        handle: Option<Handle>,
        protocol: Guid,
        interface: Interface,
    ) -> (reply: Result<Handle, Status>)
        ensures
            final(self).called() == old(self).called().push(
                Exchange::InstallProtocol { handle, protocol: protocol@, interface, reply },
            ),
    ;
}

/// The runtime services that boot flows call.
pub trait RuntimeServices {
    /// The writes that were asked for, oldest first, each with its reply.
    spec fn written(&self) -> Log;

    /// Writes a variable (`SetVariable`). The name ends in a zero.
    fn set_variable(
        &mut self,
        name: &Vec<u16>,
        namespace: Guid,
        attributes: u32,
        data: &Vec<u8>,
    ) -> (reply: Result<(), Status>)
        ensures
            final(self).written() == old(self).written().push(
                Exchange::SetVariable {
                    name: name@,
                    namespace: namespace@,
                    attributes,
                    data: data@,
                    reply,
                },
            ),
    ;
}

/// The dispatcher of drivers.
pub trait DxeDispatch {
    /// The dispatches that were asked for, oldest first, each with its reply.
    spec fn dispatched(&self) -> Log;

    /// Dispatches the drivers that are ready. `true` where at least one was.
    fn dispatch(&mut self) -> (reply: Result<bool, EfiError>)
        ensures
            final(self).dispatched() == old(self).dispatched().push(Exchange::Dispatch { reply }),
    ;
}

/// A call to a service: what was asked, and the reply.
#[allow(inconsistent_fields)]
pub enum Exchange {
    /// [`BootServices::locate_handle_buffer`].
    LocateHandles { search: Search, reply: Result<Seq<Handle>, Status> },
    /// [`BootServices::connect_controller`].
    ConnectController {
        controller: Handle,
        drivers: Seq<Handle>,
        remaining_path: Option<Seq<NodeView>>,
        recursive: bool,
        reply: Result<(), Status>,
    },
    /// [`BootServices::device_path`].
    DevicePath { handle: Handle, reply: Result<Seq<u8>, Status> },
    /// [`BootServices::read_key_strokes`].
    ReadKeyStrokes { handle: Handle, reply: Result<Seq<InputKey>, Status> },
    /// [`BootServices::handle_protocol`].
    HandleProtocol { handle: Handle, protocol: Seq<u8>, reply: Result<Interface, Status> },
    /// [`BootServices::locate_device_path`].
    LocateDevicePath { protocol: Seq<u8>, path: Seq<NodeView>, reply: Result<Handle, Status> },
    /// [`BootServices::nvme_pass_thru`].
    NvmePassThru {
        protocol: Interface,
        namespace_id: u32,
        packet: CommandPacket,
        reply: (Status, Completion),
    },
    /// [`BootServices::load_image`].
    LoadImage {
        boot_policy: bool,
        parent: Handle,
        path: Seq<NodeView>,
        reply: Result<Handle, Status>,
    },
    /// [`BootServices::start_image`].
    StartImage { image: Handle, reply: Result<(), Status> },
    /// [`BootServices::set_watchdog_timer`].
    SetWatchdogTimer { seconds: usize, reply: Result<(), Status> },
    /// [`BootServices::create_event_ex`].
    CreateEvent {
        event_type: u32,
        notify_tpl: usize,
        group: Seq<u8>,
        reply: Result<Event, Status>,
    },
    /// [`BootServices::signal_event`].
    SignalEvent { event: Event, reply: Result<(), Status> },
    /// [`BootServices::close_event`].
    CloseEvent { event: Event, reply: Result<(), Status> },
    /// [`BootServices::install_protocol_interface`].
    InstallProtocol {
        handle: Option<Handle>,
        protocol: Seq<u8>,
        interface: Interface,
        reply: Result<Handle, Status>,
    },
    /// [`RuntimeServices::set_variable`].
    SetVariable {
        name: Seq<u16>,
        namespace: Seq<u8>,
        attributes: u32,
        data: Seq<u8>,
        reply: Result<(), Status>,
    },
    /// [`DxeDispatch::dispatch`].
    Dispatch { reply: Result<bool, EfiError> },
    /// [`BootStorageService::lock_boot_partition`].
    LockBootPartition { reply: Result<(), EfiError> },
    /// [`BootConfig::handle_failure`].
    HandleFailure,
}

/// What was asked of a service, oldest first. It exists for proofs only: code that implements a
/// service outside of them never computes it.
pub type Log = Seq<Exchange>;

impl Exchange {
    /// The call looks at handles or connects a controller: what enumerating devices takes.
    pub open spec fn enumerates_devices(self) -> bool {
        ||| self is LocateHandles
        ||| self is ConnectController
        ||| self is DevicePath
        ||| self is HandleProtocol
        ||| self is LocateDevicePath
    }

    /// The call is one to the boot services.
    pub open spec fn calls_boot_services(self) -> bool {
        &&& !(self is SetVariable)
        &&& !(self is Dispatch)
        &&& !(self is LockBootPartition)
        &&& !(self is HandleFailure)
    }
}

/// The calls to the boot services among the exchanges, in order.
pub open spec fn boot_calls(exchanges: Seq<Exchange>) -> Seq<Exchange> {
    exchanges.filter(|exchange: Exchange| exchange.calls_boot_services())
}

/// The writes of variables among the exchanges, in order.
pub open spec fn writes(exchanges: Seq<Exchange>) -> Seq<Exchange> {
    exchanges.filter(|exchange: Exchange| exchange is SetVariable)
}

/// The dispatches of drivers among the exchanges, in order.
pub open spec fn dispatches(exchanges: Seq<Exchange>) -> Seq<Exchange> {
    exchanges.filter(|exchange: Exchange| exchange is Dispatch)
}

/// The locks of the boot partition among the exchanges, in order.
pub open spec fn locks(exchanges: Seq<Exchange>) -> Seq<Exchange> {
    exchanges.filter(|exchange: Exchange| exchange is LockBootPartition)
}

/// The exchanges are calls to the boot services, and no others.
pub open spec fn only_boot_services(exchanges: Seq<Exchange>) -> bool {
    forall|i: int|
        0 <= i < exchanges.len() ==> (#[trigger] exchanges[i]).calls_boot_services()
}

/// What was asked of the storage service, where there is one.
pub open spec fn locked_by<S: BootStorageService>(boot_storage: Option<S>) -> Seq<Exchange> {
    match boot_storage {
        Some(boot_storage) => boot_storage.locked(),
        None => Seq::empty(),
    }
}

/// What a list of handles holds, or the status in place of one.
pub open spec fn handles_view(reply: Result<Vec<Handle>, Status>) -> Result<Seq<Handle>, Status> {
    match reply {
        Ok(handles) => Ok(handles@),
        Err(status) => Err(status),
    }
}

/// What a list of bytes holds, or the status in place of one.
pub open spec fn bytes_view(reply: Result<Vec<u8>, Status>) -> Result<Seq<u8>, Status> {
    match reply {
        Ok(bytes) => Ok(bytes@),
        Err(status) => Err(status),
    }
}

/// What a list of keystrokes holds, or the status in place of one.
pub open spec fn keys_view(reply: Result<Vec<InputKey>, Status>) -> Result<Seq<InputKey>, Status> {
    match reply {
        Ok(keys) => Ok(keys@),
        Err(status) => Err(status),
    }
}

/// The nodes of a path, where there is one.
pub open spec fn path_view(path: Option<DevicePathBuf>) -> Option<Seq<NodeView>> {
    match path {
        Some(path) => Some(path@),
        None => None,
    }
}

/// Firmware services, with the record of every call that was made through it.
pub struct Firmware<B> {
    boot_services: B,
    record: Ghost<Seq<Exchange>>,
    origin: Ghost<Seq<Exchange>>,
}

impl<B: BootServices> Firmware<B> {
    /// The calls made so far, oldest first.
    pub closed spec fn history(self) -> Seq<Exchange> {
        self.record@
    }

    /// What was asked of the boot services so far.
    pub closed spec fn called(self) -> Seq<Exchange> {
        self.boot_services.called()
    }

    /// What had been asked of the boot services before the record began.
    pub closed spec fn asked_before(self) -> Seq<Exchange> {
        self.origin@
    }

    /// What was asked of the boot services since the record began is what the record says: no call
    /// is missing from it, and none in it was not made.
    pub closed spec fn faithful(self) -> bool {
        self.called() == self.asked_before() + boot_calls(self.history())
    }

    /// Nothing of the `earlier` record was lost, and the record is as faithful as it was.
    pub open spec fn follows(self, earlier: Self) -> bool {
        &&& earlier.history().is_prefix_of(self.history())
        &&& self.asked_before() == earlier.asked_before()
        &&& earlier.faithful() ==> self.faithful()
    }

    /// The record goes on from `earlier` with one exchange.
    pub open spec fn records(self, earlier: Self, exchange: Exchange) -> bool {
        &&& self.history() == earlier.history().push(exchange)
        &&& self.asked_before() == earlier.asked_before()
        &&& earlier.faithful() ==> self.faithful()
    }

    /// The calls made since `earlier`.
    pub open spec fn since(self, earlier: Self) -> Seq<Exchange> {
        self.history().skip(earlier.history().len() as int)
    }

    /// Boot services through which no call was made yet.
    pub fn new(boot_services: B) -> (firmware: Self)
        ensures
            firmware.history() == Seq::<Exchange>::empty(),
            firmware.called() == boot_services.called(),
            firmware.asked_before() == boot_services.called(),
            firmware.faithful(),
    {
        let firmware = Firmware {
            boot_services,
            record: Ghost(Seq::empty()),
            origin: Ghost(boot_services.called()),
        };
        proof {
            reveal(Seq::filter);
            assert(firmware.called() =~= firmware.asked_before() + boot_calls(firmware.history()));
        }
        firmware
    }

    /// Adds an exchange to the record.
    fn note(&mut self, exchange: Ghost<Exchange>)
        ensures
            final(self).history() == old(self).history().push(exchange@),
            final(self).called() == old(self).called(),
            final(self).asked_before() == old(self).asked_before(),
    {
        self.record = Ghost(self.record@.push(exchange@));
    }

    /// [`RuntimeServices::set_variable`].
    pub fn set_variable<R: RuntimeServices>(
        &mut self,
        runtime_services: &mut R,
        name: &Vec<u16>,
        namespace: Guid,
        attributes: u32,
        data: &Vec<u8>,
    ) -> (reply: Result<(), Status>)
        ensures
            final(self).records(
                *old(self),
                Exchange::SetVariable {
                    name: name@,
                    namespace: namespace@,
                    attributes,
                    data: data@,
                    reply,
                },
            ),
            final(self).called() == old(self).called(),
            final(runtime_services).written() == old(runtime_services).written().push(
                Exchange::SetVariable {
                    name: name@,
                    namespace: namespace@,
                    attributes,
                    data: data@,
                    reply,
                },
            ),
    {
        let reply = runtime_services.set_variable(name, namespace, attributes, data);
        let ghost exchange = Exchange::SetVariable {
            name: name@,
            namespace: namespace@,
            attributes,
            data: data@,
            reply,
        };
        proof {
            lemma_filter_push(self.history(), exchange);
        }
        self.note(Ghost(exchange));
        reply
    }

    /// [`DxeDispatch::dispatch`].
    pub fn dispatch<D: DxeDispatch>(&mut self, dxe_dispatch: &mut D) -> (reply: Result<
        bool,
        EfiError,
    >)
        ensures
            final(self).records(*old(self), Exchange::Dispatch { reply }),
            final(self).called() == old(self).called(),
            final(dxe_dispatch).dispatched() == old(dxe_dispatch).dispatched().push(
                Exchange::Dispatch { reply },
            ),
    {
        let reply = dxe_dispatch.dispatch();
        proof {
            lemma_filter_push(self.history(), Exchange::Dispatch { reply });
        }
        self.note(Ghost(Exchange::Dispatch { reply }));
        reply
    }

    /// [`BootStorageService::lock_boot_partition`].
    pub fn lock_boot_partition<S: BootStorageService>(&mut self, boot_storage: &mut S) -> (reply:
        Result<(), EfiError>)
        ensures
            final(self).records(*old(self), Exchange::LockBootPartition { reply }),
            final(self).called() == old(self).called(),
            final(boot_storage).locked() == old(boot_storage).locked().push(
                Exchange::LockBootPartition { reply },
            ),
    {
        let reply = boot_storage.lock_boot_partition();
        proof {
            lemma_filter_push(self.history(), Exchange::LockBootPartition { reply });
        }
        self.note(Ghost(Exchange::LockBootPartition { reply }));
        reply
    }

    /// [`BootConfig::handle_failure`].
    pub fn handle_failure(&mut self, config: &BootConfig)
        ensures
            final(self).records(*old(self), Exchange::HandleFailure),
            final(self).called() == old(self).called(),
            config.failure_handled(),
    {
        config.handle_failure();
        proof {
            lemma_filter_push(self.history(), Exchange::HandleFailure);
        }
        self.note(Ghost(Exchange::HandleFailure));
    }
}

impl<B: BootServices> Firmware<B> {
    /// [`BootServices::locate_handle_buffer`].
    pub fn locate_handle_buffer(
        &mut self,
        search: HandleSearch,
    ) -> (reply: Result<Vec<Handle>, Status>)
        ensures
            final(self).records(
                *old(self),
                Exchange::LocateHandles { search: search@, reply: handles_view(reply) },
            ),
            final(self).called() == old(self).called().push(
                Exchange::LocateHandles { search: search@, reply: handles_view(reply) },
            ),
    {
        let reply = self.boot_services.locate_handle_buffer(search);
        let ghost exchange = Exchange::LocateHandles { search: search@, reply: handles_view(reply) };
        proof {
            lemma_filter_push(self.history(), exchange);
        }
        self.note(Ghost(exchange));
        reply
    }

    /// [`BootServices::connect_controller`].
    pub fn connect_controller(
        &mut self,
        controller: Handle,
        drivers: Vec<Handle>,
        remaining_path: Option<DevicePathBuf>,
        recursive: bool,
    ) -> (reply: Result<(), Status>)
        ensures
            final(self).records(
                *old(self),
                Exchange::ConnectController {
                    controller,
                    drivers: drivers@,
                    remaining_path: path_view(remaining_path),
                    recursive,
                    reply,
                },
            ),
            final(self).called() == old(self).called().push(
                Exchange::ConnectController {
                    controller,
                    drivers: drivers@,
                    remaining_path: path_view(remaining_path),
                    recursive,
                    reply,
                },
            ),
    {
        let reply = self.boot_services.connect_controller(
            controller,
            drivers,
            remaining_path,
            recursive,
        );
        let ghost exchange = Exchange::ConnectController {
                    controller,
                    drivers: drivers@,
                    remaining_path: path_view(remaining_path),
                    recursive,
                    reply,
                };
        proof {
            lemma_filter_push(self.history(), exchange);
        }
        self.note(Ghost(exchange));
        reply
    }

    /// [`BootServices::device_path`].
    pub fn device_path(
        &mut self,
        handle: Handle,
    ) -> (reply: Result<Vec<u8>, Status>)
        ensures
            final(self).records(
                *old(self),
                Exchange::DevicePath { handle, reply: bytes_view(reply) },
            ),
            final(self).called() == old(self).called().push(
                Exchange::DevicePath { handle, reply: bytes_view(reply) },
            ),
    {
        let reply = self.boot_services.device_path(handle);
        let ghost exchange = Exchange::DevicePath { handle, reply: bytes_view(reply) };
        proof {
            lemma_filter_push(self.history(), exchange);
        }
        self.note(Ghost(exchange));
        reply
    }

    /// [`BootServices::read_key_strokes`].
    pub fn read_key_strokes(
        &mut self,
        handle: Handle,
    ) -> (reply: Result<Vec<InputKey>, Status>)
        ensures
            final(self).records(
                *old(self),
                Exchange::ReadKeyStrokes { handle, reply: keys_view(reply) },
            ),
            final(self).called() == old(self).called().push(
                Exchange::ReadKeyStrokes { handle, reply: keys_view(reply) },
            ),
    {
        let reply = self.boot_services.read_key_strokes(handle);
        let ghost exchange = Exchange::ReadKeyStrokes { handle, reply: keys_view(reply) };
        proof {
            lemma_filter_push(self.history(), exchange);
        }
        self.note(Ghost(exchange));
        reply
    }

    /// [`BootServices::handle_protocol`].
    pub fn handle_protocol(
        &mut self,
        handle: Handle,
        protocol: Guid,
    ) -> (reply: Result<Interface, Status>)
        ensures
            final(self).records(
                *old(self),
                Exchange::HandleProtocol { handle, protocol: protocol@, reply },
            ),
            final(self).called() == old(self).called().push(
                Exchange::HandleProtocol { handle, protocol: protocol@, reply },
            ),
    {
        let reply = self.boot_services.handle_protocol(handle, protocol);
        let ghost exchange = Exchange::HandleProtocol { handle, protocol: protocol@, reply };
        proof {
            lemma_filter_push(self.history(), exchange);
        }
        self.note(Ghost(exchange));
        reply
    }

    /// [`BootServices::locate_device_path`].
    pub fn locate_device_path(
        &mut self,
        protocol: Guid,
        path: &DevicePathBuf,
    ) -> (reply: Result<Handle, Status>)
        ensures
            final(self).records(
                *old(self),
                Exchange::LocateDevicePath { protocol: protocol@, path: path@, reply },
            ),
            final(self).called() == old(self).called().push(
                Exchange::LocateDevicePath { protocol: protocol@, path: path@, reply },
            ),
    {
        let reply = self.boot_services.locate_device_path(protocol, path);
        let ghost exchange = Exchange::LocateDevicePath { protocol: protocol@, path: path@, reply };
        proof {
            lemma_filter_push(self.history(), exchange);
        }
        self.note(Ghost(exchange));
        reply
    }

    /// [`BootServices::nvme_pass_thru`].
    pub fn nvme_pass_thru(
        &mut self,
        protocol: Interface,
        namespace_id: u32,
        packet: CommandPacket,
    ) -> (reply: (Status, Completion))
        ensures
            final(self).records(
                *old(self),
                Exchange::NvmePassThru { protocol, namespace_id, packet, reply },
            ),
            final(self).called() == old(self).called().push(
                Exchange::NvmePassThru { protocol, namespace_id, packet, reply },
            ),
    {
        let reply = self.boot_services.nvme_pass_thru(protocol, namespace_id, packet);
        let ghost exchange = Exchange::NvmePassThru { protocol, namespace_id, packet, reply };
        proof {
            lemma_filter_push(self.history(), exchange);
        }
        self.note(Ghost(exchange));
        reply
    }

    /// [`BootServices::load_image`].
    pub fn load_image(
        &mut self,
        boot_policy: bool,
        parent: Handle,
        path: &DevicePathBuf,
    ) -> (reply: Result<Handle, Status>)
        ensures
            final(self).records(
                *old(self),
                Exchange::LoadImage { boot_policy, parent, path: path@, reply },
            ),
            final(self).called() == old(self).called().push(
                Exchange::LoadImage { boot_policy, parent, path: path@, reply },
            ),
    {
        let reply = self.boot_services.load_image(boot_policy, parent, path);
        let ghost exchange = Exchange::LoadImage { boot_policy, parent, path: path@, reply };
        proof {
            lemma_filter_push(self.history(), exchange);
        }
        self.note(Ghost(exchange));
        reply
    }

    /// [`BootServices::start_image`].
    pub fn start_image(
        &mut self,
        image: Handle,
    ) -> (reply: Result<(), Status>)
        ensures
            final(self).records(
                *old(self),
                Exchange::StartImage { image, reply },
            ),
            final(self).called() == old(self).called().push(
                Exchange::StartImage { image, reply },
            ),
    {
        let reply = self.boot_services.start_image(image);
        let ghost exchange = Exchange::StartImage { image, reply };
        proof {
            lemma_filter_push(self.history(), exchange);
        }
        self.note(Ghost(exchange));
        reply
    }

    /// [`BootServices::set_watchdog_timer`].
    pub fn set_watchdog_timer(
        &mut self,
        seconds: usize,
    ) -> (reply: Result<(), Status>)
        ensures
            final(self).records(
                *old(self),
                Exchange::SetWatchdogTimer { seconds, reply },
            ),
            final(self).called() == old(self).called().push(
                Exchange::SetWatchdogTimer { seconds, reply },
            ),
    {
        let reply = self.boot_services.set_watchdog_timer(seconds);
        let ghost exchange = Exchange::SetWatchdogTimer { seconds, reply };
        proof {
            lemma_filter_push(self.history(), exchange);
        }
        self.note(Ghost(exchange));
        reply
    }

    /// [`BootServices::create_event_ex`].
    pub fn create_event_ex(
        &mut self,
        event_type: u32,
        notify_tpl: usize,
        group: Guid,
    ) -> (reply: Result<Event, Status>)
        ensures
            final(self).records(
                *old(self),
                Exchange::CreateEvent { event_type, notify_tpl, group: group@, reply },
            ),
            final(self).called() == old(self).called().push(
                Exchange::CreateEvent { event_type, notify_tpl, group: group@, reply },
            ),
    {
        let reply = self.boot_services.create_event_ex(event_type, notify_tpl, group);
        let ghost exchange = Exchange::CreateEvent { event_type, notify_tpl, group: group@, reply };
        proof {
            lemma_filter_push(self.history(), exchange);
        }
        self.note(Ghost(exchange));
        reply
    }

    /// [`BootServices::signal_event`].
    pub fn signal_event(
        &mut self,
        event: Event,
    ) -> (reply: Result<(), Status>)
        ensures
            final(self).records(
                *old(self),
                Exchange::SignalEvent { event, reply },
            ),
            final(self).called() == old(self).called().push(
                Exchange::SignalEvent { event, reply },
            ),
    {
        let reply = self.boot_services.signal_event(event);
        let ghost exchange = Exchange::SignalEvent { event, reply };
        proof {
            lemma_filter_push(self.history(), exchange);
        }
        self.note(Ghost(exchange));
        reply
    }

    /// [`BootServices::close_event`].
    pub fn close_event(
        &mut self,
        event: Event,
    ) -> (reply: Result<(), Status>)
        ensures
            final(self).records(
                *old(self),
                Exchange::CloseEvent { event, reply },
            ),
            final(self).called() == old(self).called().push(
                Exchange::CloseEvent { event, reply },
            ),
    {
        let reply = self.boot_services.close_event(event);
        let ghost exchange = Exchange::CloseEvent { event, reply };
        proof {
            lemma_filter_push(self.history(), exchange);
        }
        self.note(Ghost(exchange));
        reply
    }

    /// [`BootServices::install_protocol_interface`].
    pub fn install_protocol_interface(
        &mut self,
        handle: Option<Handle>,
        protocol: Guid,
        interface: Interface,
    ) -> (reply: Result<Handle, Status>)
        ensures
            final(self).records(
                *old(self),
                Exchange::InstallProtocol { handle, protocol: protocol@, interface, reply },
            ),
            final(self).called() == old(self).called().push(
                Exchange::InstallProtocol { handle, protocol: protocol@, interface, reply },
            ),
    {
        let reply = self.boot_services.install_protocol_interface(handle, protocol, interface);
        let ghost exchange = Exchange::InstallProtocol { handle, protocol: protocol@, interface, reply };
        proof {
            lemma_filter_push(self.history(), exchange);
        }
        self.note(Ghost(exchange));
        reply
    }
}

/// What one more exchange adds to the parts of a record.
pub proof fn lemma_filter_push(exchanges: Seq<Exchange>, exchange: Exchange)
    ensures
        boot_calls(exchanges.push(exchange)) == if exchange.calls_boot_services() {
            boot_calls(exchanges).push(exchange)
        } else {
            boot_calls(exchanges)
        },
        writes(exchanges.push(exchange)) == if exchange is SetVariable {
            writes(exchanges).push(exchange)
        } else {
            writes(exchanges)
        },
        dispatches(exchanges.push(exchange)) == if exchange is Dispatch {
            dispatches(exchanges).push(exchange)
        } else {
            dispatches(exchanges)
        },
        locks(exchanges.push(exchange)) == if exchange is LockBootPartition {
            locks(exchanges).push(exchange)
        } else {
            locks(exchanges)
        },
{
    reveal(Seq::filter);
    assert(exchanges.push(exchange).drop_last() =~= exchanges);
}

/// The parts of a record are made of those of its pieces.
pub proof fn lemma_filter_add(first: Seq<Exchange>, second: Seq<Exchange>)
    ensures
        boot_calls(first + second) == boot_calls(first) + boot_calls(second),
        writes(first + second) == writes(first) + writes(second),
        dispatches(first + second) == dispatches(first) + dispatches(second),
        locks(first + second) == locks(first) + locks(second),
{
    broadcast use Seq::filter_distributes_over_add;

}

/// A part of a record is empty where nothing in the record belongs to it.
pub proof fn lemma_parts_empty(exchanges: Seq<Exchange>)
    ensures
        (forall|i: int| 0 <= i < exchanges.len() ==> !(#[trigger] exchanges[i] is SetVariable))
            ==> writes(exchanges) == Seq::<Exchange>::empty(),
        (forall|i: int| 0 <= i < exchanges.len() ==> !(#[trigger] exchanges[i] is Dispatch))
            ==> dispatches(exchanges) == Seq::<Exchange>::empty(),
        (forall|i: int| 0 <= i < exchanges.len() ==> !(#[trigger] exchanges[i] is LockBootPartition))
            ==> locks(exchanges) == Seq::<Exchange>::empty(),
    decreases exchanges.len(),
{
    reveal(Seq::filter);
    if exchanges.len() > 0 {
        let before = exchanges.drop_last();
        assert(forall|i: int| 0 <= i < before.len() ==> #[trigger] before[i] == exchanges[i]);
        lemma_parts_empty(before);
    }
}

/// A part of a record is that of a section, where nothing around the section belongs to it.
pub proof fn lemma_parts_within(exchanges: Seq<Exchange>, from: int, to: int)
    requires
        0 <= from <= to <= exchanges.len(),
    ensures
        (forall|i: int|
            0 <= i < exchanges.len() && #[trigger] exchanges[i] is SetVariable ==> from <= i < to)
            ==> writes(exchanges) == writes(exchanges.subrange(from, to)),
        (forall|i: int|
            0 <= i < exchanges.len() && #[trigger] exchanges[i] is Dispatch ==> from <= i < to)
            ==> dispatches(exchanges) == dispatches(exchanges.subrange(from, to)),
        (forall|i: int|
            0 <= i < exchanges.len() && #[trigger] exchanges[i] is LockBootPartition ==> from <= i
                < to) ==> locks(exchanges) == locks(exchanges.subrange(from, to)),
{
    let before = exchanges.take(from);
    let section = exchanges.subrange(from, to);
    let behind = exchanges.skip(to);
    assert(exchanges =~= before + section + behind);
    lemma_filter_add(before + section, behind);
    lemma_filter_add(before, section);
    lemma_parts_empty(before);
    lemma_parts_empty(behind);
    let none = Seq::<Exchange>::empty();
    assert(none + writes(section) + none =~= writes(section));
    assert(none + dispatches(section) + none =~= dispatches(section));
    assert(none + locks(section) + none =~= locks(section));
}

/// Calls to the boot services write no variable, dispatch no driver and lock no partition.
pub proof fn lemma_only_boot_services(exchanges: Seq<Exchange>)
    requires
        only_boot_services(exchanges),
    ensures
        writes(exchanges) == Seq::<Exchange>::empty(),
        dispatches(exchanges) == Seq::<Exchange>::empty(),
        locks(exchanges) == Seq::<Exchange>::empty(),
{
    lemma_parts_empty(exchanges);
}

/// The record tells what was asked of the boot services: since an earlier point, just the calls to
/// them that were recorded since.
pub proof fn record_is_faithful<B: BootServices>(earlier: Firmware<B>, later: Firmware<B>)
    requires
        earlier.faithful(),
        later.follows(earlier),
    ensures
        later.called() == earlier.called() + boot_calls(later.since(earlier)),
{
    let new = later.since(earlier);
    assert(later.history() =~= earlier.history() + new);
    lemma_filter_add(earlier.history(), new);
    assert(later.called() =~= earlier.called() + boot_calls(new));
}

/// What was recorded in two steps is what was recorded in the first and then in the second.
pub proof fn lemma_since_transitive<B: BootServices>(
    first: Firmware<B>,
    middle: Firmware<B>,
    last: Firmware<B>,
)
    requires
        middle.follows(first),
        last.follows(middle),
    ensures
        last.follows(first),
        last.since(first) == middle.since(first) + last.since(middle),
{
    assert(last.since(first) =~= middle.since(first) + last.since(middle));
}

/// What was recorded between two points is a part of what was recorded around them.
pub proof fn lemma_since_between<B: BootServices>(
    first: Firmware<B>,
    from: Firmware<B>,
    to: Firmware<B>,
    last: Firmware<B>,
)
    requires
        from.follows(first),
        to.follows(from),
        last.follows(to),
    ensures
        last.follows(first),
        from.since(first).len() <= to.since(first).len() <= last.since(first).len(),
        last.since(first).subrange(
            from.since(first).len() as int,
            to.since(first).len() as int,
        ) == to.since(from),
{
    lemma_since_transitive(first, from, to);
    lemma_since_transitive(first, to, last);
    assert(last.since(first).subrange(
        from.since(first).len() as int,
        to.since(first).len() as int,
    ) =~= to.since(from));
}

} // verus!
