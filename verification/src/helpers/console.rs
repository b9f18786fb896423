//! Discovery of console devices.
use vstd::prelude::*;

use super::expand;
use crate::device_path::node::NodeView;
use crate::device_path::path;
use crate::device_path::path::DevicePathBuf;
use crate::error::EfiError;
use crate::firmware;
use crate::firmware::{
    BootServices, Exchange, Firmware, Handle, HandleSearch, RuntimeServices, Search,
};
use crate::guid;
use crate::guid::Guid;

verus! {

/// The handles that are not among those seen, in order and each once.
pub open spec fn fresh(handles: Seq<Handle>, seen: Seq<Handle>) -> Seq<Handle>
    decreases handles.len(),
{
    if handles.len() == 0 {
        Seq::empty()
    } else {
        let before = fresh(handles.drop_last(), seen);
        if (seen + before).contains(handles.last()) {
            before
        } else {
            before.push(handles.last())
        }
    }
}

/// The exchanges ask each of the handles for its device path, one after the other.
pub open spec fn asks_each(handles: Seq<Handle>, exchanges: Seq<Exchange>) -> bool {
    &&& exchanges.len() == handles.len()
    &&& forall|i: int|
        0 <= i < handles.len() ==> (#[trigger] exchanges[i] matches Exchange::DevicePath {
            handle,
            ..
        } && handle == handles[i])
}

/// The exchanges look for the handles that support one of the protocols, and ask those that were
/// not seen before for their device paths. A protocol that no handle supports is passed over.
pub open spec fn asks_supporters(
    protocols: Seq<Seq<u8>>,
    seen: Seq<Handle>,
    exchanges: Seq<Exchange>,
) -> bool
    decreases protocols.len(),
{
    if protocols.len() == 0 {
        exchanges.len() == 0
    } else {
        &&& exchanges.len() > 0
        &&& exchanges[0] matches Exchange::LocateHandles { search, reply }
        &&& search == Search::ByProtocol(protocols[0])
        &&& match reply {
            Err(_) => asks_supporters(protocols.skip(1), seen, exchanges.skip(1)),
            Ok(handles) => {
                let asked = fresh(handles, seen);
                let step = 1 + asked.len() as int;
                &&& step <= exchanges.len()
                &&& asks_each(asked, exchanges.subrange(1, step))
                &&& asks_supporters(protocols.skip(1), seen + asked, exchanges.skip(step))
            },
        }
    }
}

/// The multi-instance path that `so_far` becomes with the device paths that the exchanges found, in
/// order. A handle without a device path adds nothing.
pub open spec fn gathered(so_far: Option<Seq<NodeView>>, exchanges: Seq<Exchange>) -> Option<
    Seq<NodeView>,
>
    decreases exchanges.len(),
{
    if exchanges.len() == 0 {
        so_far
    } else {
        let before = gathered(so_far, exchanges.drop_last());
        match exchanges.last() {
            Exchange::DevicePath { reply, .. } => match (expand::path_of(reply), before) {
                (None, _) => before,
                (Some(found), None) => Some(found),
                (Some(found), Some(others)) => Some(path::with_instances(others, found)),
            },
            _ => before,
        }
    }
}

/// The bytes of each of the GUIDs.
pub open spec fn guids_view(guids: Seq<Guid>) -> Seq<Seq<u8>> {
    guids.map_values(|guid: Guid| guid@)
}

/// What is gathered from some exchanges and then from others is what is gathered from all of them.
proof fn lemma_gathered_adds(
    so_far: Option<Seq<NodeView>>,
    first: Seq<Exchange>,
    second: Seq<Exchange>,
)
    ensures
        gathered(so_far, first + second) == gathered(gathered(so_far, first), second),
    decreases second.len(),
{
    if second.len() == 0 {
        assert(first + second =~= first);
    } else {
        assert((first + second).drop_last() =~= first + second.drop_last());
        lemma_gathered_adds(so_far, first, second.drop_last());
    }
}

/// Whether the handle is in the list.
fn contains_handle(handles: &Vec<Handle>, handle: Handle) -> (found: bool)
    ensures
        found == handles@.contains(handle),
{
    let mut i: usize = 0;
    while i < handles.len()
        invariant
            i <= handles@.len(),
            forall|k: int| 0 <= k < i ==> #[trigger] handles@[k] != handle,
        decreases handles@.len() - i,
    {
        if handles[i] == handle {
            assert(handles@[i as int] == handle);
            return true;
        }
        i += 1;
    }
    false
}

/// Adds the instances of `found` to what was gathered so far.
fn gather(so_far: Option<DevicePathBuf>, found: DevicePathBuf) -> (all: Option<DevicePathBuf>)
    ensures
        all matches Some(all) && all@ == match so_far {
            Some(others) => path::with_instances(others@, found@),
            None => found@,
        },
{
    match so_far {
        Some(others) => {
            let mut all = others;
            all.append_device_path_instances(&found);
            Some(all)
        },
        None => Some(found),
    }
}

/// Asks the handles that were not seen before for their device paths, and adds these to what was
/// gathered so far.
fn ask_fresh<B: BootServices>(
    firmware: &mut Firmware<B>,
    handles: &Vec<Handle>,
    seen: &mut Vec<Handle>,
    so_far: Option<DevicePathBuf>,
) -> (all: Option<DevicePathBuf>)
    ensures
        final(firmware).follows(*old(firmware)),
        asks_each(fresh(handles@, old(seen)@), final(firmware).since(*old(firmware))),
        final(seen)@ == old(seen)@ + fresh(handles@, old(seen)@),
        firmware::path_view(all) == gathered(
            firmware::path_view(so_far),
            final(firmware).since(*old(firmware)),
        ),
{
    let ghost start = *firmware;
    let ghost known = seen@;
    let ghost given = firmware::path_view(so_far);
    let mut all = so_far;
    let mut i: usize = 0;
    proof {
        assert(firmware.since(start) =~= Seq::<Exchange>::empty());
        assert(handles@.take(0) =~= Seq::<Handle>::empty());
        assert(known + fresh(handles@.take(0), known) =~= known);
    }
    while i < handles.len()
        invariant
            i <= handles@.len(),
            start == *old(firmware),
            known == old(seen)@,
            given == firmware::path_view(so_far),
            firmware.follows(start),
            asks_each(fresh(handles@.take(i as int), known), firmware.since(start)),
            seen@ == known + fresh(handles@.take(i as int), known),
            firmware::path_view(all) == gathered(given, firmware.since(start)),
        decreases handles@.len() - i,
    {
        let handle: Handle = handles[i];
        let ghost before = firmware.since(start);
        let ghost asked = fresh(handles@.take(i as int), known);
        proof {
            assert(handles@.take(i + 1).drop_last() =~= handles@.take(i as int));
            assert(handles@.take(i + 1).last() == handle);
        }
        i += 1;
        if !contains_handle(seen, handle) {
            seen.push(handle);
            assert(seen@ =~= known + asked.push(handle));
            let reply = firmware.device_path(handle);
            let ghost after = firmware.since(start);
            proof {
                assert(after.drop_last() =~= before);
                assert(forall|k: int|
                    0 <= k < before.len() ==> #[trigger] after[k] == before[k]);
            }
            if let Ok(bytes) = reply {
                if let Some(found) = DevicePathBuf::try_from_bytes(&bytes) {
                    all = gather(all, found);
                }
            }
        }
    }
    assert(handles@.take(i as int) =~= handles@);
    all
}

/// Joins the device paths of all handles that support one of the protocols into one multi-instance
/// device path. `None` where there is no such path.
///
/// A handle that supports more than one of the protocols is taken once.
pub fn build_multi_instance_device_path<B: BootServices>(
    firmware: &mut Firmware<B>,
    protocol_guids: &Vec<Guid>,
) -> (device_path: Option<DevicePathBuf>)
    ensures
        final(firmware).follows(*old(firmware)),
        asks_supporters(
            guids_view(protocol_guids@),
            Seq::empty(),
            final(firmware).since(*old(firmware)),
        ),
        firmware::path_view(device_path) == gathered(
            None,
            final(firmware).since(*old(firmware)),
        ),
{
    let ghost start = *firmware;
    let ghost protocols = guids_view(protocol_guids@);
    let mut all: Option<DevicePathBuf> = None;
    let mut seen: Vec<Handle> = Vec::new();
    let mut i: usize = 0;
    proof {
        assert(forall|rest: Seq<Exchange>| #[trigger] (firmware.since(start) + rest) =~= rest);
        assert(protocols.skip(0) =~= protocols);
    }
    while i < protocol_guids.len()
        invariant
            i <= protocol_guids@.len(),
            start == *old(firmware),
            protocols == guids_view(protocol_guids@),
            firmware.follows(start),
            firmware::path_view(all) == gathered(None, firmware.since(start)),
            forall|rest: Seq<Exchange>|
                asks_supporters(protocols.skip(i as int), seen@, rest)
                    ==> #[trigger] asks_supporters(
                    protocols,
                    Seq::empty(),
                    firmware.since(start) + rest,
                ),
        decreases protocol_guids@.len() - i,
    {
        let ghost before = *firmware;
        let ghost known = seen@;
        let ghost left = protocols.skip(i as int);
        proof {
            assert(left.skip(1) =~= protocols.skip(i + 1));
            assert(left[0] == protocol_guids@[i as int]@);
        }
        let reply = firmware.locate_handle_buffer(HandleSearch::ByProtocol(protocol_guids[i]));
        let ghost located = *firmware;
        proof {
            let so_far = gathered(None, before.since(start));
            assert(located.since(before).drop_last() =~= Seq::<Exchange>::empty());
            assert(gathered(so_far, Seq::<Exchange>::empty()) == so_far);
            assert(gathered(so_far, located.since(before)) == so_far);
            lemma_gathered_adds(None, before.since(start), located.since(before));
        }
        if let Ok(handles) = reply {
            all = ask_fresh(firmware, &handles, &mut seen, all);
        } else {
            assert(firmware.since(located) =~= Seq::<Exchange>::empty());
        }
        proof {
            firmware::lemma_since_transitive(before, located, *firmware);
            firmware::lemma_since_transitive(start, before, *firmware);
            firmware::lemma_since_transitive(start, before, located);
            lemma_gathered_adds(None, located.since(start), firmware.since(located));
            let step = firmware.since(before);
            assert(located.since(start) + firmware.since(located) =~= firmware.since(start));
            assert forall|rest: Seq<Exchange>|
                asks_supporters(protocols.skip(i + 1), seen@, rest) implies #[trigger] asks_supporters(
                protocols,
                Seq::empty(),
                firmware.since(start) + rest,
            ) by {
                let every = step + rest;
                assert(every.skip(step.len() as int) =~= rest);
                assert(every.subrange(1, step.len() as int) =~= firmware.since(located));
                assert(asks_supporters(left, known, every));
                assert(firmware.since(start) + rest =~= before.since(start) + every);
            }
        }
        i += 1;
    }
    proof {
        let none = Seq::<Exchange>::empty();
        assert(asks_supporters(protocols.skip(i as int), seen@, none));
        assert(firmware.since(start) + none =~= firmware.since(start));
    }
    all
}

/// The name of the variable for console input, `ConIn`.
pub open spec fn con_in_name() -> Seq<u16> {
    seq!['C' as u16, 'o' as u16, 'n' as u16, 'I' as u16, 'n' as u16, 0u16]
}

/// The name of the variable for console output, `ConOut`.
pub open spec fn con_out_name() -> Seq<u16> {
    seq!['C' as u16, 'o' as u16, 'n' as u16, 'O' as u16, 'u' as u16, 't' as u16, 0u16]
}

/// The name of the variable for error output, `ErrOut`.
pub open spec fn err_out_name() -> Seq<u16> {
    seq!['E' as u16, 'r' as u16, 'r' as u16, 'O' as u16, 'u' as u16, 't' as u16, 0u16]
}

/// The variable outlasts a reset, and can be accessed by boot services and at run time.
pub const CONSOLE_ATTRIBUTES: u32 = 0x7;

/// The constant `r_efi::system::VARIABLE_NON_VOLATILE`.
#[verifier::external_body]
fn efi_variable_non_volatile() -> (attribute: u32)
    ensures
        attribute == 0x1,
{
    r_efi::system::VARIABLE_NON_VOLATILE
}

/// The constant `r_efi::system::VARIABLE_BOOTSERVICE_ACCESS`.
#[verifier::external_body]
fn efi_variable_bootservice_access() -> (attribute: u32)
    ensures
        attribute == 0x2,
{
    r_efi::system::VARIABLE_BOOTSERVICE_ACCESS
}

/// The constant `r_efi::system::VARIABLE_RUNTIME_ACCESS`.
#[verifier::external_body]
fn efi_variable_runtime_access() -> (attribute: u32)
    ensures
        attribute == 0x4,
{
    r_efi::system::VARIABLE_RUNTIME_ACCESS
}

/// The first `asked` exchanges gather the device paths of the handles that support one of the
/// protocols. Where there are any, the last writes them to the variable.
pub open spec fn gathers_then_writes(
    variable: Seq<u16>,
    protocols: Seq<Seq<u8>>,
    exchanges: Seq<Exchange>,
    asked: int,
) -> bool {
    &&& 0 <= asked <= exchanges.len()
    &&& asks_supporters(protocols, Seq::empty(), exchanges.take(asked))
    &&& match gathered(None, exchanges.take(asked)) {
        None => exchanges.len() == asked,
        Some(devices) => {
            &&& exchanges.len() == asked + 1
            &&& exchanges[asked] matches Exchange::SetVariable {
                name,
                namespace,
                attributes,
                data,
                ..
            }
            &&& name == variable
            &&& namespace == guid::spec_global_variable_guid()
            &&& attributes == CONSOLE_ATTRIBUTES
            &&& data == path::encoded(devices)
        },
    }
}

/// The exchanges bring one console variable up to date. A variable without a device is left alone.
pub open spec fn updates_variable(
    variable: Seq<u16>,
    protocols: Seq<Seq<u8>>,
    exchanges: Seq<Exchange>,
) -> bool {
    exists|asked: int| gathers_then_writes(variable, protocols, exchanges, asked)
}

/// The first `first` exchanges bring `ConIn` up to date, those up to `second` bring `ConOut` up to
/// date, and the others `ErrOut`.
pub open spec fn updates_in_turn(exchanges: Seq<Exchange>, first: int, second: int) -> bool {
    let text_input = guid::spec_simple_text_input_guid();
    let text_output = guid::spec_simple_text_output_guid();
    let graphics_output = guid::spec_graphics_output_guid();
    &&& 0 <= first <= second <= exchanges.len()
    &&& updates_variable(con_in_name(), seq![text_input], exchanges.take(first))
    &&& updates_variable(
        con_out_name(),
        seq![text_output, graphics_output],
        exchanges.subrange(first, second),
    )
    &&& updates_variable(err_out_name(), seq![text_output], exchanges.skip(second))
}

/// The exchanges bring the three console variables up to date.
pub open spec fn discovers_consoles(exchanges: Seq<Exchange>) -> bool {
    exists|first: int, second: int| updates_in_turn(exchanges, first, second)
}

/// Writes the devices that support one of the protocols to a console variable. That a variable
/// cannot be written is no failure.
fn update_variable<B: BootServices, R: RuntimeServices>(
    firmware: &mut Firmware<B>,
    runtime_services: &mut R,
    name: &Vec<u16>,
    protocol_guids: &Vec<Guid>,
)
    ensures
        final(firmware).follows(*old(firmware)),
        updates_variable(
            name@,
            guids_view(protocol_guids@),
            final(firmware).since(*old(firmware)),
        ),
        final(runtime_services).written() == old(runtime_services).written() + firmware::writes(
            final(firmware).since(*old(firmware)),
        ),
{
    let attributes: u32 = efi_variable_non_volatile() | efi_variable_bootservice_access()
        | efi_variable_runtime_access();
    assert(0x1u32 | 0x2u32 | 0x4u32 == 0x7u32) by (bit_vector);
    let ghost start = *firmware;
    let devices = build_multi_instance_device_path(firmware, protocol_guids);
    let ghost asked = firmware.since(start);
    let ghost written = runtime_services.written();
    proof {
        lemma_asking_only_looks(guids_view(protocol_guids@), Seq::empty(), asked);
        firmware::lemma_only_boot_services(asked);
        assert(written + Seq::<Exchange>::empty() =~= written);
    }
    if let Some(devices) = devices {
        let data = devices.to_bytes();
        let _ = firmware.set_variable(
            runtime_services,
            name,
            Guid::global_variable(),
            attributes,
            &data,
        );
        proof {
            let write = firmware.since(start).last();
            firmware::lemma_filter_push(asked, write);
            assert(firmware.since(start) =~= asked.push(write));
            assert(written + Seq::<Exchange>::empty().push(write) =~= written.push(write));
        }
    }
    proof {
        assert(firmware.since(start).take(asked.len() as int) =~= asked);
        assert(gathers_then_writes(
            name@,
            guids_view(protocol_guids@),
            firmware.since(start),
            asked.len() as int,
        ));
    }
}

/// Discovers console devices, and writes the `ConIn`, `ConOut` and `ErrOut` variables, by which
/// applications and OS loaders find them.
///
/// Console input is what supports SimpleTextInput, console output what supports SimpleTextOutput
/// or GraphicsOutput, error output what supports SimpleTextOutput. Always succeeds: a variable that
/// cannot be written is passed over.
pub fn discover_console_devices<B: BootServices, R: RuntimeServices>(
    firmware: &mut Firmware<B>,
    runtime_services: &mut R,
) -> (outcome: Result<(), EfiError>)
    ensures
        final(firmware).follows(*old(firmware)),
        discovers_consoles(final(firmware).since(*old(firmware))),
        final(runtime_services).written() == old(runtime_services).written() + firmware::writes(
            final(firmware).since(*old(firmware)),
        ),
        outcome is Ok,
{
    let con_in: Vec<u16> = vec!['C' as u16, 'o' as u16, 'n' as u16, 'I' as u16, 'n' as u16, 0];
    let con_out: Vec<u16> = vec![
        'C' as u16,
        'o' as u16,
        'n' as u16,
        'O' as u16,
        'u' as u16,
        't' as u16,
        0,
    ];
    let err_out: Vec<u16> = vec![
        'E' as u16,
        'r' as u16,
        'r' as u16,
        'O' as u16,
        'u' as u16,
        't' as u16,
        0,
    ];
    let text_input = vec![Guid::simple_text_input()];
    let any_output = vec![Guid::simple_text_output(), Guid::graphics_output()];
    let text_output = vec![Guid::simple_text_output()];
    proof {
        assert(con_in@ =~= con_in_name());
        assert(con_out@ =~= con_out_name());
        assert(err_out@ =~= err_out_name());
        assert(guids_view(text_input@) =~= seq![guid::spec_simple_text_input_guid()]);
        assert(guids_view(any_output@) =~= seq![
            guid::spec_simple_text_output_guid(),
            guid::spec_graphics_output_guid(),
        ]);
        assert(guids_view(text_output@) =~= seq![guid::spec_simple_text_output_guid()]);
    }
    let ghost start = *firmware;
    update_variable(firmware, runtime_services, &con_in, &text_input);
    let ghost input_done = *firmware;
    update_variable(firmware, runtime_services, &con_out, &any_output);
    let ghost output_done = *firmware;
    update_variable(firmware, runtime_services, &err_out, &text_output);
    proof {
        firmware::lemma_since_transitive(start, input_done, output_done);
        firmware::lemma_since_transitive(start, output_done, *firmware);
        let exchanges = firmware.since(start);
        firmware::lemma_filter_add(input_done.since(start), output_done.since(input_done));
        firmware::lemma_filter_add(output_done.since(start), firmware.since(output_done));
        assert(runtime_services.written() =~= old(runtime_services).written() + firmware::writes(
            exchanges,
        ));
        let first = input_done.since(start).len() as int;
        let second = output_done.since(start).len() as int;
        assert(exchanges.take(first) =~= input_done.since(start));
        assert(exchanges.subrange(first, second) =~= output_done.since(input_done));
        assert(exchanges.skip(second) =~= firmware.since(output_done));
        assert(updates_in_turn(exchanges, first, second));
    }
    Ok(())
}

/// No handle is taken twice, and none that was seen before.
proof fn lemma_fresh_distinct(handles: Seq<Handle>, seen: Seq<Handle>)
    requires
        seen.no_duplicates(),
    ensures
        (seen + fresh(handles, seen)).no_duplicates(),
    decreases handles.len(),
{
    if handles.len() == 0 {
        assert(seen + fresh(handles, seen) =~= seen);
    } else {
        let before = fresh(handles.drop_last(), seen);
        lemma_fresh_distinct(handles.drop_last(), seen);
        if !(seen + before).contains(handles.last()) {
            let all = seen + fresh(handles, seen);
            assert(all =~= (seen + before).push(handles.last()));
            assert(forall|i: int|
                0 <= i < (seen + before).len() ==> #[trigger] (seen + before)[i]
                    != handles.last());
        }
    }
}

/// Each handle is asked for its device path at most once, also where it supports more than one of
/// the protocols.
pub proof fn handles_are_asked_once(
    protocols: Seq<Seq<u8>>,
    seen: Seq<Handle>,
    exchanges: Seq<Exchange>,
)
    requires
        asks_supporters(protocols, seen, exchanges),
        seen.no_duplicates(),
    ensures
        forall|i: int|
            0 <= i < exchanges.len() && #[trigger] exchanges[i] is DevicePath ==> !seen.contains(
                exchanges[i]->DevicePath_handle,
            ),
        forall|i: int, j: int|
            0 <= i < j < exchanges.len() && (#[trigger] exchanges[i]) is DevicePath && (
            #[trigger] exchanges[j]) is DevicePath ==> exchanges[i]->DevicePath_handle
                != exchanges[j]->DevicePath_handle,
    decreases protocols.len(),
{
    if protocols.len() > 0 {
        match exchanges[0]->LocateHandles_reply {
            Err(_) => {
                let rest = exchanges.skip(1);
                handles_are_asked_once(protocols.skip(1), seen, rest);
                assert(forall|i: int|
                    1 <= i < exchanges.len() ==> #[trigger] exchanges[i] == rest[i - 1]);
            },
            Ok(handles) => {
                let asked = fresh(handles, seen);
                let step = 1 + asked.len() as int;
                let asking = exchanges.subrange(1, step);
                let rest = exchanges.skip(step);
                lemma_fresh_distinct(handles, seen);
                handles_are_asked_once(protocols.skip(1), seen + asked, rest);
                assert forall|i: int|
                    1 <= i < exchanges.len() implies #[trigger] exchanges[i] == (if i < step {
                    asking[i - 1]
                } else {
                    rest[i - step]
                }) by {}
                let all = seen + asked;
                assert(forall|i: int|
                    0 <= i < asked.len() ==> #[trigger] asked[i] == all[seen.len() + i]);
                assert forall|i: int|
                    0 <= i < exchanges.len() && #[trigger] exchanges[i] is DevicePath implies !seen.contains(
                    exchanges[i]->DevicePath_handle,
                ) by {
                    if i < step {
                        assert(asking[i - 1]->DevicePath_handle == asked[i - 1]);
                        assert(all[seen.len() + i - 1] == asked[i - 1]);
                        assert(forall|k: int| 0 <= k < seen.len() ==> #[trigger] seen[k] == all[k]);
                    } else {
                        assert(rest[i - step] is DevicePath);
                        assert(forall|k: int| 0 <= k < seen.len() ==> #[trigger] seen[k] == all[k]);
                    }
                }
                assert forall|i: int, j: int|
                    0 <= i < j < exchanges.len() && (#[trigger] exchanges[i]) is DevicePath && (
                    #[trigger] exchanges[j]) is DevicePath implies exchanges[i]->DevicePath_handle
                    != exchanges[j]->DevicePath_handle by {
                    if j < step {
                        assert(all[seen.len() + i - 1] == asked[i - 1]);
                        assert(all[seen.len() + j - 1] == asked[j - 1]);
                    } else if i < step {
                        assert(all[seen.len() + i - 1] == asked[i - 1]);
                        assert(rest[j - step] is DevicePath);
                    } else {
                        assert(rest[i - step] is DevicePath && rest[j - step] is DevicePath);
                    }
                }
            },
        }
    }
}

/// Looking for supporters only looks at handles and their paths.
proof fn lemma_asking_only_looks(
    protocols: Seq<Seq<u8>>,
    seen: Seq<Handle>,
    exchanges: Seq<Exchange>,
)
    requires
        asks_supporters(protocols, seen, exchanges),
    ensures
        forall|i: int|
            0 <= i < exchanges.len() ==> #[trigger] exchanges[i] is LocateHandles
                || exchanges[i] is DevicePath,
    decreases protocols.len(),
{
    if protocols.len() > 0 {
        match exchanges[0]->LocateHandles_reply {
            Err(_) => {
                let rest = exchanges.skip(1);
                lemma_asking_only_looks(protocols.skip(1), seen, rest);
                assert(forall|i: int|
                    1 <= i < exchanges.len() ==> #[trigger] exchanges[i] == rest[i - 1]);
            },
            Ok(handles) => {
                let asked = fresh(handles, seen);
                let step = 1 + asked.len() as int;
                let asking = exchanges.subrange(1, step);
                let rest = exchanges.skip(step);
                lemma_asking_only_looks(protocols.skip(1), seen + asked, rest);
                assert forall|i: int| 0 <= i < exchanges.len() implies #[trigger] exchanges[i] is
                    LocateHandles || exchanges[i] is DevicePath by {
                    if 0 < i < step {
                        assert(asking[i - 1] == exchanges[i]);
                    } else if step <= i {
                        assert(rest[i - step] == exchanges[i]);
                    }
                }
            },
        }
    }
}

/// The kinds of calls that the discovery of consoles makes.
pub open spec fn concerns_consoles(exchange: Exchange) -> bool {
    exchange is LocateHandles || exchange is DevicePath || exchange is SetVariable
}

proof fn lemma_update_only_concerns_consoles(
    variable: Seq<u16>,
    protocols: Seq<Seq<u8>>,
    exchanges: Seq<Exchange>,
    i: int,
)
    requires
        updates_variable(variable, protocols, exchanges),
        0 <= i < exchanges.len(),
    ensures
        concerns_consoles(exchanges[i]),
{
    let asked = choose|asked: int| gathers_then_writes(variable, protocols, exchanges, asked);
    if i < asked {
        lemma_asking_only_looks(protocols, Seq::empty(), exchanges.take(asked));
        assert(exchanges.take(asked)[i] == exchanges[i]);
    }
}

/// The discovery of consoles looks at handles and their paths and writes variables, and nothing
/// else.
pub proof fn lemma_discovery_only_concerns_consoles(exchanges: Seq<Exchange>, i: int)
    requires
        discovers_consoles(exchanges),
        0 <= i < exchanges.len(),
    ensures
        concerns_consoles(exchanges[i]),
{
    let (first, second) = choose|first: int, second: int|
        updates_in_turn(exchanges, first, second);
    if i < first {
        lemma_update_only_concerns_consoles(
            con_in_name(),
            seq![guid::spec_simple_text_input_guid()],
            exchanges.take(first),
            i,
        );
    } else if i < second {
        lemma_update_only_concerns_consoles(
            con_out_name(),
            seq![guid::spec_simple_text_output_guid(), guid::spec_graphics_output_guid()],
            exchanges.subrange(first, second),
            i - first,
        );
    } else {
        lemma_update_only_concerns_consoles(
            err_out_name(),
            seq![guid::spec_simple_text_output_guid()],
            exchanges.skip(second),
            i - second,
        );
    }
}

/// A console variable is written once where it has devices, and not at all where it has none.
pub proof fn variable_is_written_once(
    variable: Seq<u16>,
    protocols: Seq<Seq<u8>>,
    exchanges: Seq<Exchange>,
    asked: int,
)
    requires
        gathers_then_writes(variable, protocols, exchanges, asked),
    ensures
        firmware::writes(exchanges) == exchanges.skip(asked),
        exchanges.len() == asked + if gathered(None, exchanges.take(asked)) is Some {
            1int
        } else {
            0
        },
{
    let asking = exchanges.take(asked);
    lemma_asking_only_looks(protocols, Seq::empty(), asking);
    firmware::lemma_parts_empty(asking);
    if exchanges.len() == asked {
        assert(exchanges =~= asking);
        assert(exchanges.skip(asked) =~= Seq::<Exchange>::empty());
    } else {
        assert(exchanges =~= asking.push(exchanges[asked]));
        firmware::lemma_filter_push(asking, exchanges[asked]);
        assert(exchanges.skip(asked) =~= Seq::<Exchange>::empty().push(exchanges[asked]));
    }
}

/// The write of a console variable, and of nothing else.
pub open spec fn writes_only(variable: Seq<u16>, written: Seq<Exchange>) -> bool {
    &&& written.len() <= 1
    &&& forall|i: int|
        0 <= i < written.len() ==> (#[trigger] written[i] matches Exchange::SetVariable {
            name,
            namespace,
            attributes,
            ..
        } && name == variable && namespace == guid::spec_global_variable_guid() && attributes
            == CONSOLE_ATTRIBUTES)
}

/// Bringing a console variable up to date writes it at most once, and no other.
proof fn lemma_update_writes_only(
    variable: Seq<u16>,
    protocols: Seq<Seq<u8>>,
    exchanges: Seq<Exchange>,
)
    requires
        updates_variable(variable, protocols, exchanges),
    ensures
        writes_only(variable, firmware::writes(exchanges)),
{
    let asked = choose|asked: int| gathers_then_writes(variable, protocols, exchanges, asked);
    variable_is_written_once(variable, protocols, exchanges, asked);
}

/// Each of the console variables is written at most once, in their order, and no other variable is
/// written.
pub proof fn each_variable_is_written_once(exchanges: Seq<Exchange>, first: int, second: int)
    requires
        updates_in_turn(exchanges, first, second),
    ensures
        firmware::writes(exchanges) == firmware::writes(exchanges.take(first)) + firmware::writes(
            exchanges.subrange(first, second),
        ) + firmware::writes(exchanges.skip(second)),
        writes_only(con_in_name(), firmware::writes(exchanges.take(first))),
        writes_only(con_out_name(), firmware::writes(exchanges.subrange(first, second))),
        writes_only(err_out_name(), firmware::writes(exchanges.skip(second))),
{
    let text_input = seq![guid::spec_simple_text_input_guid()];
    let text_output = seq![guid::spec_simple_text_output_guid()];
    let any_output = seq![
        guid::spec_simple_text_output_guid(),
        guid::spec_graphics_output_guid(),
    ];
    let input = exchanges.take(first);
    let output = exchanges.subrange(first, second);
    let errors = exchanges.skip(second);
    lemma_update_writes_only(con_in_name(), text_input, input);
    lemma_update_writes_only(con_out_name(), any_output, output);
    lemma_update_writes_only(err_out_name(), text_output, errors);
    assert(exchanges =~= input + output + errors);
    firmware::lemma_filter_add(input + output, errors);
    firmware::lemma_filter_add(input, output);
}

/// What is gathered is a device path.
pub proof fn gathered_is_device_path(exchanges: Seq<Exchange>)
    ensures
        gathered(None, exchanges) matches Some(devices) ==> path::is_device_path(devices),
    decreases exchanges.len(),
{
    if exchanges.len() > 0 {
        gathered_is_device_path(exchanges.drop_last());
        if let Exchange::DevicePath { reply: Ok(bytes), .. } = exchanges.last() {
            if let Some(found) = path::decoded(bytes) {
                path::encode_inverts_decode(bytes);
                if let Some(others) = gathered(None, exchanges.drop_last()) {
                    path::with_instances_is_device_path(others, found);
                }
            }
        }
    }
}

/// A console variable reads back as the device path that was gathered for it, also where other
/// bytes lie behind it in memory.
pub proof fn console_variable_reads_back(
    variable: Seq<u16>,
    protocols: Seq<Seq<u8>>,
    exchanges: Seq<Exchange>,
    asked: int,
    behind: Seq<u8>,
)
    requires
        gathers_then_writes(variable, protocols, exchanges, asked),
        asked < exchanges.len(),
    ensures
        path::decoded(exchanges[asked]->SetVariable_data + behind) == gathered(
            None,
            exchanges.take(asked),
        ),
{
    gathered_is_device_path(exchanges.take(asked));
    path::decode_inverts_encode(gathered(None, exchanges.take(asked))->Some_0, behind);
}

} // verus!
