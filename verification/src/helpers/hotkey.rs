//! Hotkey detection.
use vstd::prelude::*;

use crate::error;
use crate::error::Status;
use crate::firmware;
use crate::firmware::{
    BootServices, Exchange, Firmware, Handle, HandleSearch, InputKey, Search,
};
use crate::guid;
use crate::guid::Guid;

verus! {

/// One of the keystrokes has the scan code.
pub open spec fn has_key(keys: Seq<InputKey>, scan_code: u16) -> bool {
    exists|i: int| 0 <= i < keys.len() && (#[trigger] keys[i]).scan_code == scan_code
}

/// The exchange found a keystroke with the scan code.
pub open spec fn found_key(exchange: Exchange, scan_code: u16) -> bool {
    exchange matches Exchange::ReadKeyStrokes { reply: Ok(keys), .. } && has_key(keys, scan_code)
}

/// The exchanges read the pending keystrokes of each of the handles, one after the other.
pub open spec fn reads_each(handles: Seq<Handle>, exchanges: Seq<Exchange>) -> bool {
    &&& exchanges.len() == handles.len()
    &&& forall|i: int|
        0 <= i < handles.len() ==> (#[trigger] exchanges[i] matches Exchange::ReadKeyStrokes {
            handle,
            ..
        } && handle == handles[i])
}

/// One of the exchanges found a keystroke with the scan code.
pub open spec fn any_found(exchanges: Seq<Exchange>, scan_code: u16) -> bool {
    exists|i: int| 0 <= i < exchanges.len() && found_key(#[trigger] exchanges[i], scan_code)
}

/// The exchanges look for the hotkey on every console input device. All pending keystrokes are
/// read, also those behind the hotkey.
pub open spec fn looks_for_hotkey(
    scan_code: u16,
    exchanges: Seq<Exchange>,
    pressed: bool,
) -> bool {
    &&& exchanges.len() > 0
    &&& exchanges[0] matches Exchange::LocateHandles { search, reply }
    &&& search == Search::ByProtocol(guid::spec_simple_text_input_guid())
    &&& match reply {
        Err(_) => exchanges.len() == 1 && !pressed,
        Ok(handles) => {
            &&& reads_each(handles, exchanges.skip(1))
            &&& pressed == any_found(exchanges.skip(1), scan_code)
        },
    }
}

/// Whether to go on reading keystrokes after a read with that status. Any status but success says
/// that none is pending.
pub fn keeps_reading(status: Status) -> (more: bool)
    ensures
        more == (status == 0),
{
    error::is_success(status)
}

/// Whether one of the keystrokes has the scan code.
fn contains_key(keys: &Vec<InputKey>, scan_code: u16) -> (found: bool)
    ensures
        found == has_key(keys@, scan_code),
{
    let mut i: usize = 0;
    while i < keys.len()
        invariant
            i <= keys@.len(),
            forall|k: int| 0 <= k < i ==> (#[trigger] keys@[k]).scan_code != scan_code,
        decreases keys@.len() - i,
    {
        if keys[i].scan_code == scan_code {
            assert(keys@[i as int].scan_code == scan_code);
            return true;
        }
        i += 1;
    }
    false
}

/// Whether the hotkey is among the pending keystrokes of one of the console input devices. A
/// handle that is none is passed over.
pub fn detect_hotkey_from_handles<B: BootServices>(
    firmware: &mut Firmware<B>,
    handles: &Vec<Handle>,
    hotkey_scancode: u16,
) -> (pressed: bool)
    ensures
        final(firmware).follows(*old(firmware)),
        reads_each(handles@, final(firmware).since(*old(firmware))),
        pressed == any_found(final(firmware).since(*old(firmware)), hotkey_scancode),
{
    let ghost start = *firmware;
    let mut pressed = false;
    let mut i: usize = 0;
    assert(firmware.since(start) =~= Seq::<Exchange>::empty());
    while i < handles.len()
        invariant
            i <= handles@.len(),
            start == *old(firmware),
            firmware.follows(start),
            reads_each(handles@.take(i as int), firmware.since(start)),
            pressed == any_found(firmware.since(start), hotkey_scancode),
        decreases handles@.len() - i,
    {
        let ghost before = firmware.since(start);
        let reply = firmware.read_key_strokes(handles[i]);
        let ghost after = firmware.since(start);
        proof {
            assert(after.drop_last() =~= before);
            assert(forall|k: int| 0 <= k < i ==> #[trigger] after[k] == before[k]);
        }
        if let Ok(keys) = reply {
            if contains_key(&keys, hotkey_scancode) {
                pressed = true;
                assert(found_key(after[i as int], hotkey_scancode));
            }
        }
        proof {
            if any_found(before, hotkey_scancode) {
                let k = choose|k: int|
                    0 <= k < before.len() && found_key(#[trigger] before[k], hotkey_scancode);
                assert(found_key(after[k], hotkey_scancode));
            }
        }
        i += 1;
    }
    assert(handles@.take(i as int) =~= handles@);
    pressed
}

/// Whether a hotkey was pressed. Reads the pending keystrokes of all console input devices without
/// waiting, and so consumes them.
///
/// `hotkey_scancode` is the scan code of the key, such as 0x16 for F12.
pub fn detect_hotkey<B: BootServices>(firmware: &mut Firmware<B>, hotkey_scancode: u16) -> (pressed:
    bool)
    ensures
        final(firmware).follows(*old(firmware)),
        looks_for_hotkey(hotkey_scancode, final(firmware).since(*old(firmware)), pressed),
{
    let ghost start = *firmware;
    let search = HandleSearch::ByProtocol(Guid::simple_text_input());
    let handles = match firmware.locate_handle_buffer(search) {
        Ok(handles) => handles,
        Err(_) => {
            return false;
        },
    };
    let ghost located = *firmware;
    let pressed = detect_hotkey_from_handles(firmware, &handles, hotkey_scancode);
    proof {
        firmware::lemma_since_transitive(start, located, *firmware);
        assert(firmware.since(start).skip(1) =~= firmware.since(located));
    }
    pressed
}

/// The exchanges look for the hotkey, where one is configured.
pub open spec fn checks_hotkey(
    hotkey: Option<u16>,
    exchanges: Seq<Exchange>,
    pressed: bool,
) -> bool {
    match hotkey {
        Some(scan_code) => looks_for_hotkey(scan_code, exchanges, pressed),
        None => exchanges.len() == 0 && !pressed,
    }
}

/// Whether the hotkey was pressed, where one is configured. Where none is, no keystroke is read.
pub fn check_hotkey<B: BootServices>(firmware: &mut Firmware<B>, hotkey: Option<u16>) -> (pressed:
    bool)
    ensures
        final(firmware).follows(*old(firmware)),
        checks_hotkey(hotkey, final(firmware).since(*old(firmware)), pressed),
{
    match hotkey {
        Some(scan_code) => detect_hotkey(firmware, scan_code),
        None => false,
    }
}

} // verus!
