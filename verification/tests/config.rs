use std::sync::atomic::{AtomicBool, AtomicUsize, Ordering};
use std::sync::Arc;

use patina_boot::config::BootConfig;
use patina_boot::device_path::{DevicePathBuf, DevicePathNode};
use patina_boot::SimpleBootManager;

fn create_test_device_path() -> DevicePathBuf {
    DevicePathBuf::from_nodes(vec![DevicePathNode::end_entire()])
}

/// A path with one PCI node.
fn pci_path(device: u8) -> DevicePathBuf {
    DevicePathBuf::from_nodes(vec![DevicePathNode::new(0x01, 0x01, vec![0, device]).unwrap()])
}

#[test]
fn test_new_requires_device() {
    let config = BootConfig::new(create_test_device_path());
    assert_eq!(config.devices().count(), 1);
    assert!(config.hotkey().is_none());
    assert_eq!(config.hotkey_devices().count(), 0);
}

#[test]
fn test_with_additional_devices() {
    let config = BootConfig::new(create_test_device_path())
        .with_device(create_test_device_path())
        .with_device(create_test_device_path());
    assert_eq!(config.devices().count(), 3);
}

#[test]
fn config_test_with_hotkey() {
    let config = BootConfig::new(create_test_device_path()).with_hotkey(0x16); // F12
    assert_eq!(config.hotkey(), Some(0x16));
}

#[test]
fn test_with_hotkey_device() {
    let config =
        BootConfig::new(create_test_device_path()).with_hotkey_device(create_test_device_path());
    assert_eq!(config.hotkey_devices().count(), 1);
}

#[test]
fn test_with_multiple_hotkey_devices() {
    let config = BootConfig::new(create_test_device_path())
        .with_hotkey_device(create_test_device_path())
        .with_hotkey_device(create_test_device_path());
    assert_eq!(config.hotkey_devices().count(), 2);
}

#[test]
fn test_hotkey_with_hotkey_devices() {
    let config = BootConfig::new(create_test_device_path())
        .with_hotkey(0x16) // F12
        .with_hotkey_device(create_test_device_path());

    assert_eq!(config.devices().count(), 1);
    assert_eq!(config.hotkey(), Some(0x16));
    assert_eq!(config.hotkey_devices().count(), 1);
}

#[test]
fn test_failure_handler_called() {
    let called = Arc::new(AtomicBool::new(false));
    let called_clone = called.clone();

    let config = BootConfig::new(create_test_device_path()).with_failure_handler(move || {
        called_clone.store(true, Ordering::SeqCst);
    });

    assert!(!called.load(Ordering::SeqCst));
    config.handle_failure();
    assert!(called.load(Ordering::SeqCst));
}

#[test]
fn test_failure_handler_not_configured() {
    let config = BootConfig::new(create_test_device_path());
    // Should not panic when no handler is configured
    config.handle_failure();
}

#[test]
fn test_devices_iterator_order() {
    let config = BootConfig::new(create_test_device_path()).with_device(create_test_device_path());
    let devices: Vec<_> = config.devices().collect();
    assert_eq!(devices.len(), 2);
}

#[test]
fn devices_keep_the_order_of_configuration() {
    let config = BootConfig::new(pci_path(1))
        .with_hotkey_device(pci_path(8))
        .with_device(pci_path(2))
        .with_hotkey_device(pci_path(9))
        .with_device(pci_path(3));
    let devices: Vec<_> = config.devices().cloned().collect();
    assert_eq!(devices, [pci_path(1), pci_path(2), pci_path(3)]);
    let hotkey_devices: Vec<_> = config.hotkey_devices().cloned().collect();
    assert_eq!(hotkey_devices, [pci_path(8), pci_path(9)]);
    assert_eq!(*config.select_devices(false), devices);
    assert_eq!(*config.select_devices(true), hotkey_devices);
}

#[test]
fn the_last_failure_handler_is_the_one_called() {
    let calls = Arc::new(AtomicUsize::new(0));
    let first = calls.clone();
    let second = calls.clone();
    let config = BootConfig::new(pci_path(1))
        .with_failure_handler(move || {
            first.fetch_add(1, Ordering::SeqCst);
        })
        .with_failure_handler(move || {
            second.fetch_add(10, Ordering::SeqCst);
        })
        .with_hotkey(0x16);
    config.handle_failure();
    assert_eq!(calls.load(Ordering::SeqCst), 10);
}

#[test]
fn test_new() {
    let config = BootConfig::new(create_test_device_path())
        .with_hotkey(0x16)
        .with_hotkey_device(create_test_device_path());
    let manager = SimpleBootManager::new(config);
    assert_eq!(manager.config().hotkey(), Some(0x16));
    assert_eq!(manager.config().devices().count(), 1);
    assert_eq!(manager.config().hotkey_devices().count(), 1);
}

#[test]
fn simple_boot_manager_test_with_hotkey() {
    let config = BootConfig::new(create_test_device_path())
        .with_device(create_test_device_path())
        .with_hotkey(0x16)
        .with_hotkey_device(create_test_device_path());
    let manager = SimpleBootManager::new(config);
    assert_eq!(manager.config().hotkey(), Some(0x16));
    assert_eq!(manager.config().devices().count(), 2);
    assert_eq!(manager.config().hotkey_devices().count(), 1);
}

#[test]
fn test_without_hotkey() {
    let config = BootConfig::new(create_test_device_path()).with_device(create_test_device_path());
    let manager = SimpleBootManager::new(config);
    assert!(manager.config().hotkey().is_none());
    assert_eq!(manager.config().devices().count(), 2);
    assert_eq!(manager.config().hotkey_devices().count(), 0);
}

#[test]
fn test_with_failure_handler() {
    let called = Arc::new(AtomicBool::new(false));
    let called_clone = called.clone();

    let config = BootConfig::new(create_test_device_path()).with_failure_handler(move || {
        called_clone.store(true, Ordering::SeqCst);
    });
    let manager = SimpleBootManager::new(config);

    assert!(!called.load(Ordering::SeqCst));
    manager.config().handle_failure();
    assert!(called.load(Ordering::SeqCst));
}
