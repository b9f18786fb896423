# patina_boot

Boot orchestration for UEFI firmware, verified with Verus: the steps of the BDS phase (device
enumeration, phase events, consoles, hotkeys, boot partitions, boot options), and boot flows made of
them.

```rust
use patina_boot::{config::BootConfig, BootDispatcher, SimpleBootManager};

let flow = SimpleBootManager::new(
    BootConfig::new(nvme_esp_path())
        .with_device(nvme_recovery_path())
        .with_hotkey(0x16)
        .with_hotkey_device(usb_device_path()),
);
let dispatcher = BootDispatcher::new(flow);
```

## Layout

- `src/` is the library, every function of it verified.
  - `firmware` holds the service interfaces. They promise nothing of what a service replies, only
    that a call shows in the log of the service. `Firmware` makes the calls, and keeps a ghost record
    of them.
  - `helpers` and `partition` are the steps, `orchestrators` and `component` the flows,
    `boot_dispatcher` their hook into the BDS phase.
  - `device_path`, `guid`, `error` and `config` hold the data.
- `tests/` runs the library against scripted services.
- `app/` puts the library on the tables of real firmware.

## What is proved

A contract says which calls a function records, in which order, with which arguments, and what comes
of each reply. It also says that the record accounts for every call: each service has a log, which
grows by what is recorded and by nothing else. All this holds whatever the firmware replies. Public
proof functions state what follows for whole flows, for example that

- an image runs only while the watchdog does (`helpers::boot::watchdog_guards_image`),
- enumeration ends, and connects every handle that it finds (`helpers::connect`),
- no image is loaded before the system is locked down and, on a system with a recovery environment,
  the boot partition write-protected (`orchestrators`),
- what is written to a console variable reads back as the device path of the consoles
  (`helpers::console::console_variable_reads_back`).

## What is taken on trust

- Functions marked `external_body`: the values of constants of `r-efi`, and the layout of its GUIDs.
- That an implementation of a service (`BootServices`, `RuntimeServices`, `DxeDispatch`,
  `BootStorageService`) adds each call, with its arguments and reply, to its log.
- That a boot flow or a connection strategy of a platform keeps to the contract of its trait.
