//! Laws of hotkey detection.
use vstd::prelude::*;

use crate::firmware::{Exchange, Handle, InputKey, Search};
use crate::helpers::hotkey;

verus! {

/// A key is among the keystrokes where one of them has its very scan code.
pub proof fn keys_are_told_by_scan_code(keys: Seq<InputKey>, scan_code: u16)
    ensures
        hotkey::has_key(keys, scan_code) <==> exists|k: int|
            0 <= k < keys.len() && (#[trigger] keys[k]).scan_code == scan_code,
{
}

/// A key was found where some device had, among all its pending keystrokes, one with its very scan
/// code.
pub proof fn key_is_found_on_any_device(exchanges: Seq<Exchange>, scan_code: u16)
    ensures
        hotkey::any_found(exchanges, scan_code) <==> exists|i: int, k: int|
            #![trigger exchanges[i], exchanges[i]->ReadKeyStrokes_reply->Ok_0[k]]
            0 <= i < exchanges.len() && (exchanges[i] matches Exchange::ReadKeyStrokes {
                reply: Ok(keys),
                ..
            } && 0 <= k < keys.len() && keys[k].scan_code == scan_code),
{
    if hotkey::any_found(exchanges, scan_code) {
        let i = choose|i: int|
            0 <= i < exchanges.len() && hotkey::found_key(#[trigger] exchanges[i], scan_code);
        let keys = exchanges[i]->ReadKeyStrokes_reply->Ok_0;
        let k = choose|k: int| 0 <= k < keys.len() && (#[trigger] keys[k]).scan_code == scan_code;
        assert(exchanges[i]->ReadKeyStrokes_reply->Ok_0[k].scan_code == scan_code);
    }
    if exists|i: int, k: int|
        #![trigger exchanges[i], exchanges[i]->ReadKeyStrokes_reply->Ok_0[k]]
        0 <= i < exchanges.len() && (exchanges[i] matches Exchange::ReadKeyStrokes {
            reply: Ok(keys),
            ..
        } && 0 <= k < keys.len() && keys[k].scan_code == scan_code) {
        let (i, k) = choose|i: int, k: int|
            #![trigger exchanges[i], exchanges[i]->ReadKeyStrokes_reply->Ok_0[k]]
            0 <= i < exchanges.len() && (exchanges[i] matches Exchange::ReadKeyStrokes {
                reply: Ok(keys),
                ..
            } && 0 <= k < keys.len() && keys[k].scan_code == scan_code);
        assert(hotkey::found_key(exchanges[i], scan_code));
    }
}

/// Every device is read, once and in order, whatever was found on those before, and nothing else
/// happens.
pub proof fn every_device_is_read(handles: Seq<Handle>, exchanges: Seq<Exchange>)
    requires
        hotkey::reads_each(handles, exchanges),
    ensures
        exchanges.len() == handles.len(),
        forall|i: int|
            0 <= i < handles.len() ==> (#[trigger] exchanges[i] matches Exchange::ReadKeyStrokes {
                handle,
                ..
            } && handle == handles[i]),
{
}

/// The hotkey was pressed exactly where some read of keystrokes holds one with its very scan code.
pub proof fn pressed_means_scan_code_was_read(
    scan_code: u16,
    exchanges: Seq<Exchange>,
    pressed: bool,
)
    requires
        hotkey::looks_for_hotkey(scan_code, exchanges, pressed),
    ensures
        pressed <==> exists|i: int, k: int|
            #![trigger exchanges[i], exchanges[i]->ReadKeyStrokes_reply->Ok_0[k]]
            0 <= i < exchanges.len() && (exchanges[i] matches Exchange::ReadKeyStrokes {
                reply: Ok(keys),
                ..
            } && 0 <= k < keys.len() && keys[k].scan_code == scan_code),
{
    let reads = exchanges.skip(1);
    key_is_found_on_any_device(reads, scan_code);
    assert(forall|i: int| 0 <= i < reads.len() ==> #[trigger] reads[i] == exchanges[i + 1]);
    if pressed {
        let (i, k) = choose|i: int, k: int|
            #![trigger reads[i], reads[i]->ReadKeyStrokes_reply->Ok_0[k]]
            0 <= i < reads.len() && (reads[i] matches Exchange::ReadKeyStrokes {
                reply: Ok(keys),
                ..
            } && 0 <= k < keys.len() && keys[k].scan_code == scan_code);
        assert(exchanges[i + 1]->ReadKeyStrokes_reply->Ok_0[k].scan_code == scan_code);
    }
    if exists|i: int, k: int|
        #![trigger exchanges[i], exchanges[i]->ReadKeyStrokes_reply->Ok_0[k]]
        0 <= i < exchanges.len() && (exchanges[i] matches Exchange::ReadKeyStrokes {
            reply: Ok(keys),
            ..
        } && 0 <= k < keys.len() && keys[k].scan_code == scan_code) {
        let (i, k) = choose|i: int, k: int|
            #![trigger exchanges[i], exchanges[i]->ReadKeyStrokes_reply->Ok_0[k]]
            0 <= i < exchanges.len() && (exchanges[i] matches Exchange::ReadKeyStrokes {
                reply: Ok(keys),
                ..
            } && 0 <= k < keys.len() && keys[k].scan_code == scan_code);
        assert(reads[i - 1]->ReadKeyStrokes_reply->Ok_0[k].scan_code == scan_code);
    }
}

/// The devices that support text input are looked for once, and each of them is read, in order and
/// once, whatever was found on those before. Where they cannot be looked for, none is read.
pub proof fn every_text_input_is_read(scan_code: u16, exchanges: Seq<Exchange>, pressed: bool)
    requires
        hotkey::looks_for_hotkey(scan_code, exchanges, pressed),
    ensures
        exchanges.len() > 0,
        exchanges[0] matches Exchange::LocateHandles { search, reply } && search
            == Search::ByProtocol(
            seq![
                0xc1u8, 0x77, 0x74, 0x38, 0xc7, 0x69, 0xd2, 0x11, 0x8e, 0x39, 0x00, 0xa0, 0xc9,
                0x69, 0x72, 0x3b,
            ],
        ) && match reply {
            Err(_) => exchanges.len() == 1,
            Ok(handles) => {
                &&& exchanges.len() == 1 + handles.len()
                &&& forall|i: int|
                    1 <= i < exchanges.len() ==> (#[trigger] exchanges[i] matches
                        Exchange::ReadKeyStrokes { handle, .. } && handle == handles[i - 1])
            },
        },
{
    super::identifiers::guids_have_their_bytes();
    let reads = exchanges.skip(1);
    assert(forall|i: int| 1 <= i < exchanges.len() ==> #[trigger] exchanges[i] == reads[i - 1]);
}

/// Where no hotkey is configured, nothing is read and none counts as pressed; where one is, it is
/// the one that is looked for.
pub proof fn configured_hotkey_is_looked_for(
    configured: Option<u16>,
    exchanges: Seq<Exchange>,
    pressed: bool,
)
    requires
        hotkey::checks_hotkey(configured, exchanges, pressed),
    ensures
        configured is None ==> exchanges == Seq::<Exchange>::empty() && !pressed,
        configured matches Some(scan_code) ==> hotkey::looks_for_hotkey(
            scan_code,
            exchanges,
            pressed,
        ),
{
    if configured is None {
        assert(exchanges =~= Seq::<Exchange>::empty());
    }
}

} // verus!
