//! Boot configuration.
use vstd::prelude::*;

use vstd::std_specs::iter::IteratorSpec;

use crate::device_path::node::NodeView;
use crate::device_path::DevicePathBuf;

verus! {

/// What a platform does when every boot option has failed. Any closure without arguments is one.
pub trait FailureHandler: Send + Sync {
    /// The handler can be called.
    spec fn callable(&self) -> bool;

    /// What a call of the handler achieves.
    spec fn called(&self) -> bool;

    /// Handles the failure.
    fn handle(&self)
        requires
            self.callable(),
        ensures
            self.called(),
    ;
}

impl<F: Fn() + Send + Sync> FailureHandler for F {
    open spec fn callable(&self) -> bool {
        call_requires(*self, ())
    }

    open spec fn called(&self) -> bool {
        call_ensures(*self, (), ())
    }

    fn handle(&self) {
        self()
    }
}

/// The nodes of each path.
pub open spec fn paths_view(paths: Seq<DevicePathBuf>) -> Seq<Seq<NodeView>> {
    paths.map_values(|path: DevicePathBuf| path@)
}

/// What a platform boots from.
pub struct BootConfig {
    devices: Vec<DevicePathBuf>,
    hotkey: Option<u16>,
    hotkey_devices: Vec<DevicePathBuf>,
    failure_handler: Option<Box<dyn FailureHandler>>,
}

impl BootConfig {
    /// There is a boot device, and the failure handler can be called.
    #[verifier::type_invariant]
    spec fn wf(&self) -> bool {
        &&& self.devices@.len() > 0
        &&& self.failure_handler matches Some(handler) ==> handler.callable()
    }

    /// Boot devices, in the order in which they are tried.
    pub closed spec fn device_paths(self) -> Seq<Seq<NodeView>> {
        paths_view(self.devices@)
    }

    /// Scan code of the hotkey.
    pub closed spec fn hotkey_scan_code(self) -> Option<u16> {
        self.hotkey
    }

    /// Devices that are tried in place of the boot devices when the hotkey was pressed, in order.
    pub closed spec fn hotkey_device_paths(self) -> Seq<Seq<NodeView>> {
        paths_view(self.hotkey_devices@)
    }

    /// The devices to try, in order: the hotkey devices where the hotkey was pressed, and the boot
    /// devices where not.
    pub open spec fn selected_paths(self, hotkey_pressed: bool) -> Seq<Seq<NodeView>> {
        if hotkey_pressed {
            self.hotkey_device_paths()
        } else {
            self.device_paths()
        }
    }

    /// A failure handler is configured.
    pub closed spec fn has_failure_handler(self) -> bool {
        self.failure_handler is Some
    }

    /// The failure handler was called, where one is configured.
    pub closed spec fn failure_handled(self) -> bool {
        self.failure_handler matches Some(handler) ==> handler.called()
    }

    /// A configuration with one boot device.
    pub fn new(device: DevicePathBuf) -> (config: Self)
        ensures
            config.device_paths() == seq![device@],
            config.hotkey_scan_code() is None,
            config.hotkey_device_paths() == Seq::<Seq<NodeView>>::empty(),
            !config.has_failure_handler(),
    {
        let mut devices: Vec<DevicePathBuf> = Vec::new();
        devices.push(device);
        let config = BootConfig {
            devices,
            hotkey: None,
            hotkey_devices: Vec::new(),
            failure_handler: None,
        };
        assert(config.device_paths() =~= seq![device@]);
        assert(config.hotkey_device_paths() =~= Seq::<Seq<NodeView>>::empty());
        config
    }

    /// Adds a boot device behind those that are there.
    pub fn with_device(self, device: DevicePathBuf) -> (config: Self)
        ensures
            config.device_paths() == self.device_paths().push(device@),
            config.hotkey_scan_code() == self.hotkey_scan_code(),
            config.hotkey_device_paths() == self.hotkey_device_paths(),
            config.has_failure_handler() == self.has_failure_handler(),
            config.failure_handled() == self.failure_handled(),
    {
        proof {
            use_type_invariant(&self);
        }
        let BootConfig { devices, hotkey, hotkey_devices, failure_handler } = self;
        let mut devices = devices;
        devices.push(device);
        assert(paths_view(devices@) =~= self.device_paths().push(device@));
        BootConfig { devices, hotkey, hotkey_devices, failure_handler }
    }

    /// Sets the hotkey. Where it is pressed during boot, the hotkey devices are tried in place of
    /// the boot devices.
    ///
    /// Looking for the hotkey consumes every pending keystroke.
    pub fn with_hotkey(self, scancode: u16) -> (config: Self)
        ensures
            config.device_paths() == self.device_paths(),
            config.hotkey_scan_code() == Some(scancode),
            config.hotkey_device_paths() == self.hotkey_device_paths(),
            config.has_failure_handler() == self.has_failure_handler(),
            config.failure_handled() == self.failure_handled(),
    {
        proof {
            use_type_invariant(&self);
        }
        let BootConfig { devices, hotkey: _, hotkey_devices, failure_handler } = self;
        BootConfig { devices, hotkey: Some(scancode), hotkey_devices, failure_handler }
    }

    /// Adds a device that is tried when the hotkey was pressed, behind those that are there.
    pub fn with_hotkey_device(self, device: DevicePathBuf) -> (config: Self)
        ensures
            config.device_paths() == self.device_paths(),
            config.hotkey_scan_code() == self.hotkey_scan_code(),
            config.hotkey_device_paths() == self.hotkey_device_paths().push(device@),
            config.has_failure_handler() == self.has_failure_handler(),
            config.failure_handled() == self.failure_handled(),
    {
        proof {
            use_type_invariant(&self);
        }
        let BootConfig { devices, hotkey, hotkey_devices, failure_handler } = self;
        let mut hotkey_devices = hotkey_devices;
        hotkey_devices.push(device);
        assert(paths_view(hotkey_devices@) =~= self.hotkey_device_paths().push(device@));
        BootConfig { devices, hotkey, hotkey_devices, failure_handler }
    }

    /// Sets the failure handler, which is called when every boot option has failed.
    pub fn with_failure_handler<F: FailureHandler + 'static>(self, handler: F) -> (config: Self)
        requires
            handler.callable(),
        ensures
            config.device_paths() == self.device_paths(),
            config.hotkey_scan_code() == self.hotkey_scan_code(),
            config.hotkey_device_paths() == self.hotkey_device_paths(),
            config.has_failure_handler(),
            config.failure_handled() == handler.called(),
    {
        proof {
            use_type_invariant(&self);
        }
        let BootConfig { devices, hotkey, hotkey_devices, failure_handler: _ } = self;
        let boxed: Box<dyn FailureHandler> = Box::new(handler);
        BootConfig { devices, hotkey, hotkey_devices, failure_handler: Some(boxed) }
    }

    /// Scan code of the hotkey, where one is configured.
    pub fn hotkey(&self) -> (scancode: Option<u16>)
        ensures
            scancode == self.hotkey_scan_code(),
    {
        self.hotkey
    }

    /// The boot devices, in the order in which they are tried. There is at least one.
    pub fn devices(&self) -> (devices: std::slice::Iter<'_, DevicePathBuf>)
        ensures
            paths_view(IteratorSpec::remaining(&devices).unref()) == self.device_paths(),
            self.device_paths().len() > 0,
            IteratorSpec::initial_value_relation(&devices, &devices),
            IteratorSpec::decrease(&devices) is Some,
    {
        proof {
            use_type_invariant(self);
        }
        self.devices.iter()
    }

    /// The devices that are tried when the hotkey was pressed, in order.
    pub fn hotkey_devices(&self) -> (devices: std::slice::Iter<'_, DevicePathBuf>)
        ensures
            paths_view(IteratorSpec::remaining(&devices).unref()) == self.hotkey_device_paths(),
            IteratorSpec::initial_value_relation(&devices, &devices),
            IteratorSpec::decrease(&devices) is Some,
    {
        self.hotkey_devices.iter()
    }

    /// The devices to try, in order: the hotkey devices where the hotkey was pressed, and the boot
    /// devices where not.
    pub fn select_devices(&self, hotkey_pressed: bool) -> (devices: &Vec<DevicePathBuf>)
        ensures
            paths_view(devices@) == self.selected_paths(hotkey_pressed),
    {
        if hotkey_pressed {
            &self.hotkey_devices
        } else {
            &self.devices
        }
    }

    /// Calls the failure handler, where one is configured.
    pub fn handle_failure(&self)
        ensures
            self.failure_handled(),
    {
        proof {
            use_type_invariant(self);
        }
        if let Some(handler) = &self.failure_handler {
            handler.handle();
        }
    }
}

/// A step of configuring: a failure handler is set, of which it is given what a call achieves, or
/// what there was of failure handlers stays.
pub open spec fn configures(before: BootConfig, after: BootConfig, handler: Option<bool>) -> bool {
    match handler {
        Some(called) => after.has_failure_handler() && after.failure_handled() == called,
        None => {
            &&& after.has_failure_handler() == before.has_failure_handler()
            &&& after.failure_handled() == before.failure_handled()
        },
    }
}

/// Of any number of failure handlers that are set in turn, the last is the one that handling a
/// failure calls. The other steps of configuring do not change that.
pub proof fn last_failure_handler_counts(
    configs: Seq<BootConfig>,
    handlers: Seq<Option<bool>>,
    last: int,
)
    requires
        configs.len() == handlers.len() + 1,
        forall|i: int|
            0 <= i < handlers.len() ==> configures(
                configs[i],
                configs[i + 1],
                #[trigger] handlers[i],
            ),
        0 <= last < handlers.len(),
        handlers[last] is Some,
        forall|i: int| last < i < handlers.len() ==> (#[trigger] handlers[i]) is None,
    ensures
        configs.last().has_failure_handler(),
        configs.last().failure_handled() == handlers[last]->Some_0,
    decreases handlers.len(),
{
    let end = handlers.len() - 1;
    assert(configures(configs[end], configs[end + 1], handlers[end]));
    if last < end {
        let earlier = handlers.drop_last();
        assert(forall|i: int| 0 <= i < earlier.len() ==> #[trigger] earlier[i] == handlers[i]);
        last_failure_handler_counts(configs.drop_last(), earlier, last);
    }
}

} // verus!
